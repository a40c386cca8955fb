//! What a click may do to the line that is being edited.

use vstd::prelude::*;

use crate::cell::Color;
use crate::cell::TerminalCell;
use crate::cell::ATTR_DIM;
use crate::commands::CommandState;
use crate::commands::RecordModel;
use crate::queries::reports_mouse;
use crate::state::TerminalState;
use crate::words::first_joined;
use crate::words::last_joined;

verus! {

/// A cell of the screen, or the place behind the last one of its row.
#[derive(Clone, Copy, Debug, PartialEq, Eq, Structural)]
pub struct ScreenCell {
    pub row: usize,
    pub col: usize,
}

impl ScreenCell {
    /// Reading order.
    pub open spec fn precedes(self, other: ScreenCell) -> bool {
        self.row < other.row || (self.row == other.row && self.col < other.col)
    }

    /// Reading order.
    pub fn before(&self, other: &ScreenCell) -> (yes: bool)
        ensures
            yes == self.precedes(*other),
    {
        self.row < other.row || (self.row == other.row && self.col < other.col)
    }
}

/// The cells of the line that is being edited.
#[derive(Clone, Copy, Debug, PartialEq, Eq, Structural)]
pub struct InputSpan {
    pub start: ScreenCell,
    pub end: ScreenCell,
}

/// What the shell is known to be doing.
#[derive(Clone, Copy, Debug, PartialEq, Eq, Structural)]
pub enum ShellPhase {
    Unknown,
    Editing,
    Running,
}

/// Everything that may forbid a click to move the cursor.
#[derive(Clone, Copy, Debug, PartialEq, Eq, Structural)]
pub struct ClickGuards {
    pub enabled: bool,
    pub mouse_reporting: bool,
    pub alt_screen: bool,
    pub scrolled_back: bool,
    pub phase: ShellPhase,
}

/// What the last command says of the shell.
pub open spec fn phase_of(records: Seq<RecordModel>) -> ShellPhase {
    if records.len() == 0 || records.last().complete {
        ShellPhase::Unknown
    } else {
        match records.last().state {
            CommandState::Running => ShellPhase::Running,
            CommandState::Editing => ShellPhase::Editing,
            _ => ShellPhase::Unknown,
        }
    }
}

/// Whether a cell holds anything that was typed or printed.
pub open spec fn is_occupied(cell: TerminalCell) -> bool {
    cell.flags.spec_continuation() || !(cell.character == ' ' || cell.character == '\0'
        || cell.character == '\u{a0}')
}

/// Whether a cell may belong to a completion that a shell previews.
pub open spec fn is_preview(cell: TerminalCell) -> bool {
    cell.flags.spec_has(ATTR_DIM) || cell.foreground == Color::Indexed(8) || cell.foreground
        == Color::BrightBlack
}

/// The end of the last occupied cell before column `to`; zero without one.
pub open spec fn occupied_end(cells: Seq<TerminalCell>, to: int) -> int
    decreases to,
{
    if to <= 0 || is_occupied(cells[to - 1]) {
        to
    } else {
        occupied_end(cells, to - 1)
    }
}

/// Where the occupied cells that end at column `to` begin.
pub open spec fn run_start(cells: Seq<TerminalCell>, to: int) -> int
    decreases to,
{
    if to > 0 && is_occupied(cells[to - 1]) {
        run_start(cells, to - 1)
    } else {
        to
    }
}

/// The end of the last occupied cell of the rows from `first` on that stands
/// before column `to` of row `row`; the start of row `first` without one.
pub open spec fn text_end(state: TerminalState, first: int, row: int, to: int) -> (int, int)
    decreases row - first + 1,
{
    if row < first {
        (first, 0)
    } else {
        let end = occupied_end(state.row_cells(row), to);
        if end > 0 {
            (row, end)
        } else {
            text_end(state, first, row - 1, state.cols())
        }
    }
}

/// The text end without a decoration at the right edge: a run behind a wide
/// gap, wholly to the right of the cursor.
pub open spec fn undecorated_end(state: TerminalState, first: int, end: (int, int)) -> (int, int) {
    let run = run_start(state.row_cells(end.0), end.1);
    let gap = occupied_end(state.row_cells(end.0), run);
    if end.1 + 1 >= state.cols() && end.1 > 0 && run - gap >= 3 && (end.0 > state.cursor_row || (
    end.0 == state.cursor_row && run > state.cursor_col)) {
        text_end(state, first, end.0, gap)
    } else {
        end
    }
}

/// The first cell from `cell` on, before `end`, that may belong to a previewed
/// completion; `end` without one.
pub open spec fn preview_start(state: TerminalState, cell: (int, int), end: (int, int)) -> (int, int)
    decreases state.rows() - cell.0, state.cols() - cell.1,
{
    let before = cell.0 < end.0 || (cell.0 == end.0 && cell.1 < end.1);
    if cell.0 < 0 || cell.0 >= state.rows() || !before {
        end
    } else if cell.1 >= state.cols() {
        preview_start(state, (cell.0 + 1, 0), end)
    } else if cell.1 >= 0 && is_preview(state.row_cells(cell.0)[cell.1]) {
        cell
    } else {
        preview_start(state, (cell.0, cell.1 + 1), end)
    }
}

/// The rows of the screen that continue on the next.
pub open spec fn screen_wraps(state: TerminalState) -> Seq<bool> {
    Seq::new(state.grid@.len(), |r: int| state.grid@[r].wrapped)
}

/// The line that is being edited: the logical line of the cursor up to the end
/// of its text, but at least to the cursor, and without a previewed
/// completion.
pub open spec fn input_span(state: TerminalState) -> ((int, int), (int, int)) {
    let wraps = screen_wraps(state);
    let first = first_joined(wraps, state.cursor_row as int);
    let last = last_joined(wraps, state.cursor_row as int, state.rows());
    let cursor = (state.cursor_row as int, state.cursor_col as int);
    let end = undecorated_end(state, first, text_end(state, first, last, state.cols()));
    let reached = if end.0 < cursor.0 || (end.0 == cursor.0 && end.1 < cursor.1) {
        cursor
    } else {
        end
    };
    ((first, 0), preview_start(state, cursor, reached))
}

/// Whether a click may move the cursor: only on the live primary screen, while
/// no program wants the mouse and no command is known to run.
pub open spec fn click_allowed(guards: ClickGuards) -> bool {
    guards.enabled && !guards.mouse_reporting && !guards.alt_screen && !guards.scrolled_back
        && guards.phase != ShellPhase::Running
}

/// The place in a line that a click on a cell goes to: the cell itself, or the
/// nearer end of the line.
pub open spec fn nearest_place(cell: (int, int), start: (int, int), end: (int, int)) -> (int, int) {
    if cell.0 < start.0 || (cell.0 == start.0 && cell.1 < start.1) {
        start
    } else if end.0 < cell.0 || (end.0 == cell.0 && end.1 < cell.1) {
        end
    } else {
        cell
    }
}

/// One `key` for each character of the screen from `from` up to `to`.
pub open spec fn keys_between(
    state: TerminalState,
    from: (int, int),
    to: (int, int),
    key: Seq<u8>,
) -> Seq<u8>
    decreases state.rows() - from.0, state.cols() - from.1,
{
    let before = from.0 < to.0 || (from.0 == to.0 && from.1 < to.1);
    if from.0 < 0 || from.0 >= state.rows() || !before {
        Seq::empty()
    } else if from.1 >= state.cols() {
        keys_between(state, (from.0 + 1, 0), to, key)
    } else if from.1 >= 0 && state.row_cells(from.0)[from.1].flags.spec_continuation() {
        keys_between(state, (from.0, from.1 + 1), to, key)
    } else {
        key + keys_between(state, (from.0, from.1 + 1), to, key)
    }
}

/// The bytes of an arrow key.
pub open spec fn arrow_key(right: bool, application: bool) -> Seq<u8> {
    seq![
        0x1bu8,
        if application {
            0x4fu8
        } else {
            0x5bu8
        },
        if right {
            0x43u8
        } else {
            0x44u8
        },
    ]
}

/// The keys that walk the line editor from the cursor to a clicked cell; none
/// where the click must not move it.
pub open spec fn click_keys(state: TerminalState, click: (int, int), enabled: bool) -> Seq<u8> {
    let guards = ClickGuards {
        enabled,
        mouse_reporting: reports_mouse(state),
        alt_screen: state.use_alt_buffer,
        scrolled_back: state.scroll_offset != 0,
        phase: phase_of(state.log@.records),
    };
    let (start, end) = input_span(state);
    let cursor = (state.cursor_row as int, state.cursor_col as int);
    let target = nearest_place(click, start, end);
    let right = cursor.0 < target.0 || (cursor.0 == target.0 && cursor.1 < target.1);
    let key = arrow_key(right, state.modes.has(1));
    if !click_allowed(guards) || click.0 < start.0 || end.0 < click.0 {
        Seq::empty()
    } else if right {
        keys_between(state, cursor, target, key)
    } else {
        keys_between(state, target, cursor, key)
    }
}

/// A screen cell as numbers.
pub open spec fn pair(cell: ScreenCell) -> (int, int) {
    (cell.row as int, cell.col as int)
}

/// Whether a cell holds anything that was typed or printed.
fn cell_is_occupied(cell: &TerminalCell) -> (yes: bool)
    ensures
        yes == is_occupied(*cell),
{
    cell.flags.wide_continuation() || !(cell.character == ' ' || cell.character == '\0'
        || cell.character == '\u{a0}')
}

/// Whether a cell may belong to a completion that a shell previews.
fn is_inline_suggestion_cell(cell: &TerminalCell) -> (yes: bool)
    ensures
        yes == is_preview(*cell),
{
    if cell.flags.dim() {
        return true;
    }
    match cell.foreground {
        Color::Indexed(index) => index == 8,
        Color::BrightBlack => true,
        _ => false,
    }
}

impl TerminalState {
    /// What the shell is known to be doing.
    pub fn shell_phase(&self) -> (phase: ShellPhase)
        ensures
            phase == phase_of(self.log@.records),
    {
        let count: usize = self.log.records.len();
        assert(self.log@.records.len() == count);
        if count == 0 {
            return ShellPhase::Unknown;
        }
        let record = &self.log.records[count - 1];
        assert(self.log@.records.last() == record@);
        if record.complete {
            return ShellPhase::Unknown;
        }
        match record.state {
            CommandState::Running => ShellPhase::Running,
            CommandState::Editing => ShellPhase::Editing,
            _ => ShellPhase::Unknown,
        }
    }

    /// Finds the end of the last occupied cell of a row before a column.
    fn find_occupied_end(&self, row: usize, to: usize) -> (end: usize)
        requires
            self.core_wf(),
            row < self.rows(),
            to <= self.cols(),
        ensures
            end == occupied_end(self.row_cells(row as int), to as int),
            end <= to,
    {
        let mut end: usize = to;
        while end > 0 && !cell_is_occupied(&self.grid.get(row, end - 1))
            invariant
                self.core_wf(),
                row < self.rows(),
                end <= to <= self.cols(),
                occupied_end(self.row_cells(row as int), to as int) == occupied_end(
                    self.row_cells(row as int),
                    end as int,
                ),
            decreases end,
        {
            end = end - 1;
        }
        end
    }

    /// Finds where the occupied cells that end at a column begin.
    fn find_run_start(&self, row: usize, to: usize) -> (start: usize)
        requires
            self.core_wf(),
            row < self.rows(),
            to <= self.cols(),
        ensures
            start == run_start(self.row_cells(row as int), to as int),
            start <= to,
    {
        let mut start: usize = to;
        while start > 0 && cell_is_occupied(&self.grid.get(row, start - 1))
            invariant
                self.core_wf(),
                row < self.rows(),
                start <= to <= self.cols(),
                run_start(self.row_cells(row as int), to as int) == run_start(
                    self.row_cells(row as int),
                    start as int,
                ),
            decreases start,
        {
            start = start - 1;
        }
        start
    }

    /// Finds the end of the last occupied cell of several rows.
    fn find_text_end(&self, first: usize, row: usize, to: usize) -> (end: ScreenCell)
        requires
            self.core_wf(),
            first <= row < self.rows(),
            to <= self.cols(),
        ensures
            pair(end) == text_end(*self, first as int, row as int, to as int),
            first <= end.row <= row,
            end.col <= self.cols(),
    {
        let mut at: usize = row;
        let mut limit: usize = to;
        loop
            invariant
                self.core_wf(),
                first <= at <= row < self.rows(),
                limit <= self.cols(),
                text_end(*self, first as int, row as int, to as int) == text_end(
                    *self,
                    first as int,
                    at as int,
                    limit as int,
                ),
            decreases at,
        {
            let end: usize = self.find_occupied_end(at, limit);
            if end > 0 {
                return ScreenCell { row: at, col: end };
            }
            if at == first {
                assert(text_end(*self, first as int, first - 1, self.cols()) == (
                    first as int,
                    0int,
                ));
                return ScreenCell { row: first, col: 0 };
            }
            at = at - 1;
            limit = self.grid.cols;
        }
    }

    /// Finds the text end without a decoration at the right edge.
    fn find_undecorated_end(&self, first: usize, end: ScreenCell) -> (result: ScreenCell)
        requires
            self.core_wf(),
            first <= end.row < self.rows(),
            end.col <= self.cols(),
        ensures
            pair(result) == undecorated_end(*self, first as int, pair(end)),
            first <= result.row <= end.row,
            result.col <= self.cols(),
    {
        let cols: usize = self.grid.cols;
        if end.col > 0 && end.col >= cols - 1 {
            let run: usize = self.find_run_start(end.row, end.col);
            let gap: usize = self.find_occupied_end(end.row, run);
            if run - gap >= 3 && (end.row > self.cursor_row || (end.row == self.cursor_row && run
                > self.cursor_col)) {
                return self.find_text_end(first, end.row, gap);
            }
        }
        end
    }

    /// Where a previewed completion begins between two cells; the second one
    /// without a preview.
    pub fn inline_suggestion_start(&self, from: ScreenCell, end: ScreenCell) -> (start: ScreenCell)
        requires
            self.core_wf(),
        ensures
            pair(start) == preview_start(*self, pair(from), pair(end)),
    {
        let rows: usize = self.grid.rows();
        let cols: usize = self.grid.cols;
        let mut at = from;
        while at.row < rows && at.before(&end)
            invariant
                self.core_wf(),
                rows == self.rows(),
                cols == self.cols(),
                preview_start(*self, pair(from), pair(end)) == preview_start(
                    *self,
                    pair(at),
                    pair(end),
                ),
            decreases rows - at.row, cols - at.col,
        {
            if at.col >= cols {
                at = ScreenCell { row: at.row + 1, col: 0 };
            } else if is_inline_suggestion_cell(&self.grid.get(at.row, at.col)) {
                return at;
            } else {
                at = ScreenCell { row: at.row, col: at.col + 1 };
            }
        }
        end
    }

    /// The line that is being edited.
    pub fn editable_span(&self) -> (span: InputSpan)
        requires
            self.core_wf(),
        ensures
            (pair(span.start), pair(span.end)) == input_span(*self),
    {
        let rows: usize = self.grid.rows();
        let cols: usize = self.grid.cols;
        let ghost wraps = screen_wraps(*self);
        let mut first: usize = self.cursor_row;
        while first > 0 && self.grid.row_wrapped(first - 1)
            invariant
                self.core_wf(),
                first <= self.cursor_row,
                wraps == screen_wraps(*self),
                first_joined(wraps, self.cursor_row as int) == first_joined(wraps, first as int),
            decreases first,
        {
            first = first - 1;
        }
        let mut last: usize = self.cursor_row;
        while last < rows - 1 && self.grid.row_wrapped(last)
            invariant
                self.core_wf(),
                rows == self.rows(),
                self.cursor_row <= last < rows,
                wraps == screen_wraps(*self),
                last_joined(wraps, self.cursor_row as int, rows as int) == last_joined(
                    wraps,
                    last as int,
                    rows as int,
                ),
            decreases rows - last,
        {
            last = last + 1;
        }
        let cursor = ScreenCell { row: self.cursor_row, col: self.cursor_col };
        let full = self.find_text_end(first, last, cols);
        let mut end = self.find_undecorated_end(first, full);
        if end.before(&cursor) {
            end = cursor;
        }
        InputSpan {
            start: ScreenCell { row: first, col: 0 },
            end: self.inline_suggestion_start(cursor, end),
        }
    }

    /// Everything that may forbid a click to move the cursor.
    pub fn click_guards(&self, enabled: bool) -> (guards: ClickGuards)
        ensures
            guards == (ClickGuards {
                enabled,
                mouse_reporting: reports_mouse(*self),
                alt_screen: self.use_alt_buffer,
                scrolled_back: self.scroll_offset != 0,
                phase: phase_of(self.log@.records),
            }),
    {
        ClickGuards {
            enabled,
            mouse_reporting: self.is_mouse_enabled(),
            alt_screen: self.is_alt_buffer_active(),
            scrolled_back: self.scroll_offset != 0,
            phase: self.shell_phase(),
        }
    }

    /// The line that is being edited, where a click on row `click_row` is on
    /// one of its rows. Rows of finished commands are never clicked into.
    pub fn clicked_input(&self, click_row: usize) -> (span: Option<InputSpan>)
        requires
            self.core_wf(),
        ensures
            ({
                let (start, end) = input_span(*self);
                match span {
                    Some(span) => start.0 <= click_row <= end.0 && (
                        pair(span.start),
                        pair(span.end),
                    ) == (start, end),
                    None => click_row < start.0 || click_row > end.0,
                }
            }),
    {
        let span = self.editable_span();
        if click_row < span.start.row || click_row > span.end.row {
            None
        } else {
            Some(span)
        }
    }

    /// Whether a cell of the screen is the right half of a double-width
    /// character; none is outside the screen.
    pub fn is_right_half(&self, row: usize, col: usize) -> (yes: bool)
        requires
            self.core_wf(),
        ensures
            yes == (row < self.rows() && col < self.cols()
                && self.row_cells(row as int)[col as int].flags.spec_continuation()),
    {
        row < self.grid.rows() && col < self.grid.cols && self.grid.get(
            row,
            col,
        ).flags.wide_continuation()
    }
}

impl ClickGuards {
    /// Whether a click may move the cursor.
    pub fn allow(&self) -> (yes: bool)
        ensures
            yes == click_allowed(*self),
    {
        self.enabled && !self.mouse_reporting && !self.alt_screen && !self.scrolled_back
            && self.phase != ShellPhase::Running
    }
}

impl InputSpan {
    /// The place in the line that a click on a cell goes to.
    pub fn target_cell(&self, cell: ScreenCell) -> (target: ScreenCell)
        ensures
            pair(target) == nearest_place(pair(cell), pair(self.start), pair(self.end)),
    {
        if cell.before(&self.start) {
            self.start
        } else if self.end.before(&cell) {
            self.end
        } else {
            cell
        }
    }
}

impl TerminalState {
    /// One arrow key for each character of the screen between two cells.
    fn arrow_bytes(&self, from: ScreenCell, to: ScreenCell, right: bool) -> (keys: Vec<u8>)
        requires
            self.core_wf(),
        ensures
            keys@ == keys_between(
                *self,
                pair(from),
                pair(to),
                arrow_key(right, self.modes.has(1)),
            ),
    {
        let ghost key = arrow_key(right, self.modes.has(1));
        let second: u8 = if self.is_application_cursor_keys() {
            0x4f
        } else {
            0x5b
        };
        let third: u8 = if right {
            0x43
        } else {
            0x44
        };
        let rows: usize = self.grid.rows();
        let cols: usize = self.grid.cols;
        let mut keys: Vec<u8> = Vec::new();
        let mut at = from;
        assert(keys@ + keys_between(*self, pair(at), pair(to), key) =~= keys_between(
            *self,
            pair(from),
            pair(to),
            key,
        ));
        while at.row < rows && at.before(&to)
            invariant
                self.core_wf(),
                rows == self.rows(),
                cols == self.cols(),
                key == seq![0x1bu8, second, third],
                keys@ + keys_between(*self, pair(at), pair(to), key) == keys_between(
                    *self,
                    pair(from),
                    pair(to),
                    key,
                ),
            decreases rows - at.row, cols - at.col,
        {
            let ghost before = keys@;
            if at.col >= cols {
                at = ScreenCell { row: at.row + 1, col: 0 };
            } else {
                let half = self.is_right_half(at.row, at.col);
                let next = ScreenCell { row: at.row, col: at.col + 1 };
                if !half {
                    keys.push(0x1b);
                    keys.push(second);
                    keys.push(third);
                    proof {
                        let rest = keys_between(*self, pair(next), pair(to), key);
                        assert(keys@ + rest =~= before + (key + rest));
                    }
                }
                at = next;
            }
        }
        assert(keys@ + Seq::<u8>::empty() =~= keys@);
        keys
    }

    /// The keys that walk the line editor from the cursor to a clicked cell;
    /// none where the click must not move it.
    pub fn click_cursor_move(&self, click_row: usize, click_col: usize, enabled: bool) -> (keys: Vec<
        u8,
    >)
        requires
            self.core_wf(),
        ensures
            keys@ == click_keys(*self, (click_row as int, click_col as int), enabled),
    {
        if !self.click_guards(enabled).allow() {
            return Vec::new();
        }
        let span = match self.clicked_input(click_row) {
            Some(span) => span,
            None => return Vec::new(),
        };
        let cursor = ScreenCell { row: self.cursor_row, col: self.cursor_col };
        let target = span.target_cell(ScreenCell { row: click_row, col: click_col });
        if cursor.before(&target) {
            self.arrow_bytes(cursor, target, true)
        } else {
            self.arrow_bytes(target, cursor, false)
        }
    }
}

/// A click never sends the cursor beyond the line that is being edited: the
/// place it goes to lies between its ends.
pub proof fn clicks_stay_in_the_line(click: (int, int), start: (int, int), end: (int, int))
    requires
        start.0 < end.0 || (start.0 == end.0 && start.1 <= end.1),
    ensures
        ({
            let place = nearest_place(click, start, end);
            &&& start.0 < place.0 || (start.0 == place.0 && start.1 <= place.1)
            &&& place.0 < end.0 || (place.0 == end.0 && place.1 <= end.1)
        }),
{
}

/// A previewed completion never belongs to the line that is being edited: no
/// cell from the cursor to the end of the line may be part of one.
pub proof fn previews_are_not_edited(state: TerminalState, row: int, col: int)
    requires
        state.core_wf(),
        0 <= row < state.rows(),
        0 <= col < state.cols(),
        row > state.cursor_row || (row == state.cursor_row && col >= state.cursor_col),
        ({
            let end = input_span(state).1;
            row < end.0 || (row == end.0 && col < end.1)
        }),
    ensures
        !is_preview(state.row_cells(row)[col]),
{
    let wraps = screen_wraps(state);
    let first = first_joined(wraps, state.cursor_row as int);
    let last = last_joined(wraps, state.cursor_row as int, state.rows());
    let cursor = (state.cursor_row as int, state.cursor_col as int);
    let end = undecorated_end(state, first, text_end(state, first, last, state.cols()));
    let reached = if end.0 < cursor.0 || (end.0 == cursor.0 && end.1 < cursor.1) {
        cursor
    } else {
        end
    };
    lemma_no_preview_before(state, cursor, reached, row, col);
}

/// No cell before the start of a previewed completion is part of one.
proof fn lemma_no_preview_before(
    state: TerminalState,
    cell: (int, int),
    end: (int, int),
    row: int,
    col: int,
)
    requires
        0 <= cell.0,
        0 <= cell.1,
        0 <= row < state.rows(),
        0 <= col < state.cols(),
        row > cell.0 || (row == cell.0 && col >= cell.1),
        ({
            let start = preview_start(state, cell, end);
            row < start.0 || (row == start.0 && col < start.1)
        }),
    ensures
        !is_preview(state.row_cells(row)[col]),
    decreases state.rows() - cell.0, state.cols() - cell.1,
{
    let before = cell.0 < end.0 || (cell.0 == end.0 && cell.1 < end.1);
    if cell.0 < state.rows() && before {
        if cell.1 >= state.cols() {
            lemma_no_preview_before(state, (cell.0 + 1, 0), end, row, col);
        } else if !is_preview(state.row_cells(cell.0)[cell.1]) {
            if !(row == cell.0 && col == cell.1) {
                lemma_no_preview_before(state, (cell.0, cell.1 + 1), end, row, col);
            }
        }
    }
}

} // verus!
