//! Moving the view over the history, and finding commands and their output in
//! it.

use vstd::prelude::*;

use crate::bounded_text::bounded;
use crate::bounded_text::utf8_len;
use crate::bounded_text::BoundedTextBuilder;
use crate::bounded_text::ExtractedText;
use crate::cell::TerminalCell;
use crate::commands::index_of_id;
use crate::commands::output_model;
use crate::commands::text_model;
use crate::commands::CommandMark;
use crate::commands::TextModel;
use crate::extraction::cell_chars;
use crate::extraction::find_unpadded_end;
use crate::extraction::piece_end;
use crate::extraction::piece_start;
use crate::extraction::row_text;
use crate::grid::Line;
use crate::host::fits_bytes;
use crate::lifecycle::extracted;
use crate::provenance::BufferAnchor;
use crate::state::saturating_sum;
use crate::state::TerminalState;
use crate::text::chars_of;

verus! {

/// `post` is `pre` with the view elsewhere.
pub open spec fn view_moved(pre: TerminalState, offset: int, post: TerminalState) -> bool {
    post == TerminalState { scroll_offset: offset as usize, ..pre }
}

/// The offset after scrolling by `lines`, earlier rows counting up.
pub open spec fn offset_scrolled(state: TerminalState, lines: int) -> int {
    let len = state.history().len() as int;
    let moved = state.scroll_offset + lines;
    if state.use_alt_buffer && len == 0 {
        state.scroll_offset as int
    } else if moved < 0 {
        0
    } else if moved > len {
        len
    } else {
        moved
    }
}

/// Absolute row at the top of the view.
pub open spec fn view_top(state: TerminalState) -> int {
    state.history().len() - state.scroll_offset
}

/// Row of the view that shows an absolute row.
pub open spec fn row_in_view(state: TerminalState, absolute: int) -> Option<int> {
    let row = absolute - view_top(state);
    if 0 <= row < state.rows() {
        Some(row)
    } else {
        None
    }
}

/// Where the logical line around row `start` begins.
pub open spec fn line_beginning(lines: Seq<Line>, start: int) -> int
    decreases start,
{
    if start > 0 && lines[start - 1].wrapped {
        line_beginning(lines, start - 1)
    } else {
        start
    }
}

/// First history row that a scrolled view can show something of.
pub open spec fn view_beginning(state: TerminalState) -> int {
    let len = state.history().len() as int;
    let wanted = len - (state.scroll_offset + state.rows());
    line_beginning(
        state.history(),
        if wanted < 0 {
            0
        } else {
            wanted
        },
    )
}

/// Whether history rows have the screen's width and wrap nowhere, so that the
/// view shows them row by row.
pub open spec fn view_is_exact(state: TerminalState) -> bool {
    state.scroll_offset == 0 || forall|i: int|
        view_beginning(state) <= i < state.history().len() ==> (
        #[trigger] state.history()[i]).cells.len() == state.cols() && !state.history()[i].wrapped
}

/// The offset that shows a line at the top of the view, or the live screen.
pub open spec fn offset_of_line(state: TerminalState, line_id: u64) -> Option<int> {
    if line_id >= state.total_lines_scrolled {
        Some(0)
    } else if line_id >= state.first_line_id() {
        Some(state.total_lines_scrolled - line_id)
    } else {
        None
    }
}

/// The offset that reveals a retained line: unchanged where it is in view.
pub open spec fn revealing_offset(state: TerminalState, absolute: int) -> int {
    if row_in_view(state, absolute) is Some {
        state.scroll_offset as int
    } else if absolute < state.history().len() {
        state.history().len() - absolute
    } else {
        0
    }
}

impl TerminalState {
    /// Scrolls the view; earlier rows count up. An alternate screen without
    /// history does not scroll.
    pub fn scroll(&mut self, lines: isize)
        requires
            old(self).core_wf(),
        ensures
            final(self).core_wf(),
            view_moved(*old(self), offset_scrolled(*old(self), lines as int), *final(self)),
    {
        let len: usize = self.scrollback.len();
        if self.use_alt_buffer && len == 0 {
            return ;
        }
        if lines > 0 {
            let up: usize = lines as usize;
            self.scroll_offset = if up > len - self.scroll_offset {
                len
            } else {
                self.scroll_offset + up
            };
        } else {
            let down: usize = if lines == isize::MIN {
                usize::MAX
            } else {
                (-lines) as usize
            };
            self.scroll_offset = if down > self.scroll_offset {
                0
            } else {
                self.scroll_offset - down
            };
        }
    }

    /// Goes back to the live screen.
    pub fn scroll_to_bottom(&mut self)
        requires
            old(self).core_wf(),
        ensures
            final(self).core_wf(),
            view_moved(*old(self), 0, *final(self)),
    {
        self.scroll_offset = 0;
    }

    /// Absolute row that a row of the view shows.
    pub fn viewport_row_to_absolute(&self, viewport_row: usize) -> (row: usize)
        requires
            self.core_wf(),
        ensures
            row == if view_top(*self) + viewport_row > usize::MAX {
                usize::MAX as int
            } else {
                view_top(*self) + viewport_row
            },
    {
        (self.scrollback.len() - self.scroll_offset).saturating_add(viewport_row)
    }

    /// Row of the view that shows an absolute row.
    pub fn absolute_row_to_viewport(&self, absolute_row: usize) -> (row: Option<usize>)
        requires
            self.core_wf(),
        ensures
            match (row_in_view(*self, absolute_row as int), row) {
                (Some(expected), Some(row)) => expected == row,
                (None, None) => true,
                _ => false,
            },
    {
        let top: usize = self.scrollback.len() - self.scroll_offset;
        if absolute_row < top {
            return None;
        }
        if absolute_row - top < self.grid.rows.len() {
            Some(absolute_row - top)
        } else {
            None
        }
    }

    /// Stable number of the line at the top of the view.
    pub fn viewport_top_line_id(&self) -> (line_id: u64)
        requires
            self.core_wf(),
        ensures
            line_id == self.total_lines_scrolled - self.scroll_offset,
    {
        self.total_lines_scrolled - self.scroll_offset as u64
    }

    /// First history row that a scrolled view can show something of.
    pub fn find_view_beginning(&self) -> (start: usize)
        requires
            self.core_wf(),
        ensures
            start == view_beginning(*self),
            start <= self.history().len(),
    {
        let len: usize = self.scrollback.len();
        let wanted: usize = self.scroll_offset + self.grid.rows.len();
        let mut start: usize = if len < wanted {
            0
        } else {
            len - wanted
        };
        let ghost lines = self.history();
        let ghost first = start as int;
        while start > 0 && self.scrollback[start - 1].is_wrapped
            invariant
                start <= len,
                len == lines.len(),
                lines == self.history(),
                len == self.scrollback@.len(),
                line_beginning(lines, first) == line_beginning(lines, start as int),
                forall|i: int|
                    0 <= i < len ==> (#[trigger] lines[i]).wrapped == self.scrollback@[i].is_wrapped,
            decreases start,
        {
            assert(lines[start - 1].wrapped);
            start = start - 1;
        }
        assert(start > 0 ==> !lines[start - 1].wrapped);
        start
    }

    /// Whether the view shows history row by row.
    pub fn viewport_buffer_mapping_is_exact(&self) -> (exact: bool)
        requires
            self.core_wf(),
        ensures
            exact == view_is_exact(*self),
    {
        if self.scroll_offset == 0 {
            return true;
        }
        let mut i: usize = self.find_view_beginning();
        let len: usize = self.scrollback.len();
        let ghost lines = self.history();
        while i < len
            invariant
                self.core_wf(),
                self.scroll_offset != 0,
                view_beginning(*self) <= i <= len,
                len == lines.len(),
                lines == self.history(),
                forall|k: int|
                    view_beginning(*self) <= k < i ==> (#[trigger] lines[k]).cells.len()
                        == self.cols() && !lines[k].wrapped,
            decreases len - i,
        {
            let line = &self.scrollback[i];
            assert(lines[i as int] == line@);
            if line.columns() != self.grid.cols || line.is_wrapped {
                return false;
            }
            i = i + 1;
        }
        true
    }

    /// Cell of the view that shows a stable position.
    pub fn buffer_anchor_to_viewport(&self, anchor: BufferAnchor) -> (cell: Option<(usize, usize)>)
        requires
            self.core_wf(),
        ensures
            match cell {
                Some((row, column)) => view_is_exact(*self) && self.absolute_of_line(
                    anchor.line_id,
                ) is Some && row_in_view(*self, self.absolute_of_line(anchor.line_id)->0)
                    == Some(row as int) && column == anchor.column,
                None => !view_is_exact(*self) || self.absolute_of_line(anchor.line_id) is None
                    || row_in_view(*self, self.absolute_of_line(anchor.line_id)->0) is None,
            },
    {
        if !self.viewport_buffer_mapping_is_exact() {
            return None;
        }
        match self.buffer_anchor_to_absolute(anchor) {
            Some((absolute, column)) => match self.absolute_row_to_viewport(absolute) {
                Some(row) => Some((row, column)),
                None => None,
            },
            None => None,
        }
    }

    /// Scrolls so that a stable position is in view; nothing happens where it
    /// is not retained.
    pub fn scroll_to_buffer_anchor(&mut self, anchor: BufferAnchor) -> (found: bool)
        requires
            old(self).core_wf(),
        ensures
            final(self).core_wf(),
            match old(self).absolute_of_line(anchor.line_id) {
                Some(absolute) => found && view_moved(
                    *old(self),
                    revealing_offset(*old(self), absolute),
                    *final(self),
                ),
                None => !found && *final(self) == *old(self),
            },
    {
        let absolute: usize = match self.buffer_anchor_to_absolute(anchor) {
            Some((absolute, _)) => absolute,
            None => {
                return false;
            },
        };
        if self.absolute_row_to_viewport(absolute).is_some() {
            return true;
        }
        let len: usize = self.scrollback.len();
        self.scroll_offset = if absolute < len {
            len - absolute
        } else {
            0
        };
        true
    }

    /// Scrolls a line to the top of the view, or back to the live screen.
    pub fn scroll_to_line_id(&mut self, line_id: u64) -> (found: bool)
        requires
            old(self).core_wf(),
        ensures
            final(self).core_wf(),
            match offset_of_line(*old(self), line_id) {
                Some(offset) => found && view_moved(*old(self), offset, *final(self)),
                None => !found && *final(self) == *old(self),
            },
    {
        if line_id >= self.total_lines_scrolled {
            self.scroll_offset = 0;
            return true;
        }
        let first: u64 = self.total_lines_scrolled - self.scrollback.len() as u64;
        if line_id < first {
            return false;
        }
        self.scroll_offset = (self.total_lines_scrolled - line_id) as usize;
        true
    }

    /// Scrolls a command's prompt to the top of the view.
    pub fn scroll_to_command(&mut self, id: &str) -> (found: bool)
        requires
            old(self).core_wf(),
        ensures
            final(self).core_wf(),
            match command_line(*old(self), id@) {
                Some(line_id) => found && view_moved(
                    *old(self),
                    offset_of_line(*old(self), line_id)->0,
                    *final(self),
                ),
                None => !found && *final(self) == *old(self),
            },
    {
        if self.use_alt_buffer {
            return false;
        }
        let anchor = match self.command_record(id) {
            Some(record) => record.prompt_start,
            None => {
                return false;
            },
        };
        if self.buffer_anchor_to_absolute(anchor).is_none() {
            return false;
        }
        self.scroll_to_line_id(anchor.line_id)
    }
}

/// The line of a command's prompt, while it is retained.
pub open spec fn command_line(state: TerminalState, id: Seq<char>) -> Option<u64> {
    if state.use_alt_buffer {
        None
    } else {
        match index_of_id(state.log@.records, id) {
            Some(i) => {
                let anchor = state.log@.records[i].prompt_start;
                if state.absolute_of_line(anchor.line_id) is Some {
                    Some(anchor.line_id)
                } else {
                    None
                }
            },
            None => None,
        }
    }
}

/// The output of a command within a limit: as captured, or as the rows still
/// show it.
pub open spec fn command_text(state: TerminalState, id: Seq<char>, max_bytes: int) -> Option<
    TextModel,
> {
    match index_of_id(state.log@.records, id) {
        None => None,
        Some(i) => {
            let record = state.log@.records[i];
            match record.captured_output {
                Some(captured) => if utf8_len(captured.text) <= max_bytes {
                    Some(captured)
                } else {
                    Some(
                        TextModel {
                            text: bounded(captured.text, max_bytes),
                            truncated: true,
                            total_bytes: captured.total_bytes,
                        },
                    )
                },
                None => match record.output_start {
                    Some(start) => extracted(
                        state,
                        start,
                        match record.output_end {
                            Some(end) => end,
                            None => state.cursor_anchor(),
                        },
                        max_bytes,
                    ),
                    None => None,
                },
            }
        },
    }
}

/// A captured text cut to a limit that it exceeds.
fn recap(captured: &ExtractedText, max_bytes: usize) -> (text: ExtractedText)
    ensures
        text_model(text) == (TextModel {
            text: bounded(captured.text@, max_bytes as int),
            truncated: true,
            total_bytes: captured.total_bytes,
        }),
{
    let chars = chars_of(captured.text.as_str());
    let mut builder = BoundedTextBuilder::new(max_bytes);
    let mut i: usize = 0;
    assert(builder.seen@ =~= chars@.take(0));
    while i < chars.len()
        invariant
            i <= chars@.len(),
            builder.wf(),
            builder.max_bytes == max_bytes,
            builder.seen@ == chars@.take(i as int),
        decreases chars.len() - i,
    {
        builder.push(chars[i]);
        i = i + 1;
        assert(builder.seen@ =~= chars@.take(i as int));
    }
    assert(chars@.take(i as int) =~= chars@);
    let text = builder.finish();
    ExtractedText { text: text.text, truncated: true, total_bytes: captured.total_bytes }
}

/// A copy of a captured text.
fn copy_captured(captured: &ExtractedText) -> (text: ExtractedText)
    ensures
        text_model(text) == text_model(*captured),
{
    ExtractedText {
        text: captured.text.clone(),
        truncated: captured.truncated,
        total_bytes: captured.total_bytes,
    }
}

impl TerminalState {
    /// The output of a command within a limit.
    pub fn command_output_text(&self, id: &str, max_bytes: usize) -> (text: Option<ExtractedText>)
        requires
            self.core_wf(),
        ensures
            output_model(text) == command_text(*self, id@, max_bytes as int),
    {
        let record = match self.command_record(id) {
            Some(record) => record,
            None => {
                return None;
            },
        };
        if let Some(captured) = &record.captured_output {
            let chars = chars_of(captured.text.as_str());
            if fits_bytes(&chars, max_bytes) {
                return Some(copy_captured(captured));
            }
            return Some(recap(captured, max_bytes));
        }
        match record.output_start {
            Some(start) => {
                let end = match record.output_end {
                    Some(end) => end,
                    None => self.current_buffer_anchor(),
                };
                self.extract_text_range(start, end, max_bytes)
            },
            None => None,
        }
    }
}

/// First row of the logical line that `left` line breaks, minus one, lead to
/// from `row`; the rows end with `last`.
pub open spec fn logical_row(lines: Seq<Line>, row: int, last: int, left: int) -> Option<int>
    decreases last + 1 - row,
{
    if row > last {
        None
    } else if left == 1 {
        Some(row)
    } else {
        logical_row(
            lines,
            row + 1,
            last,
            if row < last && !lines[row].wrapped {
                left - 1
            } else {
                left
            },
        )
    }
}

/// The rows of a command's output, both ends absolute, with the columns where
/// it starts and ends; nothing where it is not retained.
pub open spec fn output_span(state: TerminalState, id: Seq<char>) -> Option<
    ((int, int), (int, int)),
> {
    if state.use_alt_buffer {
        None
    } else {
        match index_of_id(state.log@.records, id) {
            None => None,
            Some(i) => match (
                state.log@.records[i].output_start,
                state.log@.records[i].output_end,
            ) {
                (Some(start), Some(end)) => match (
                    state.absolute_of_line(start.line_id),
                    state.absolute_of_line(end.line_id),
                ) {
                    (Some(first), Some(last)) => if last < first {
                        None
                    } else {
                        Some(((first, start.column as int), (last, end.column as int)))
                    },
                    _ => None,
                },
                _ => None,
            },
        }
    }
}

/// Last row that an output has something on.
pub open spec fn last_output_row(span: ((int, int), (int, int))) -> int {
    if span.1.1 == 0 && span.1.0 > span.0.0 {
        span.1.0 - 1
    } else {
        span.1.0
    }
}

/// Row that the logical line of an output begins on.
pub open spec fn output_line_row(state: TerminalState, id: Seq<char>, line_no: int) -> Option<int> {
    match output_span(state, id) {
        Some(span) => if line_no == 0 {
            None
        } else {
            logical_row(state.document(), span.0.0, last_output_row(span), line_no)
        },
        None => None,
    }
}

/// How many characters a row contributes to an output.
pub open spec fn row_chars_count(
    lines: Seq<Line>,
    span: ((int, int), (int, int)),
    row: int,
) -> int {
    row_text(
        lines[row].cells,
        piece_start(lines, span.0, row),
        piece_end(lines, span.1, row),
    ).len() as int
}

/// What `n` leaves of `a`, at least nothing.
pub open spec fn left_of(a: int, n: int) -> int {
    if a < n {
        0
    } else {
        a - n
    }
}

/// Row that the characters `start..end`, counted from `row` on, begin on:
/// `target` where it is known. The whole span must lie on the logical line.
pub open spec fn match_row(
    lines: Seq<Line>,
    span: ((int, int), (int, int)),
    row: int,
    last: int,
    start: int,
    end: int,
    target: Option<int>,
) -> Option<int>
    decreases last + 1 - row,
{
    if row > last {
        None
    } else {
        let chars = row_chars_count(lines, span, row);
        let found = if target is None && start < chars {
            Some(row)
        } else {
            target
        };
        if end <= chars {
            found
        } else if !lines[row].wrapped {
            None
        } else {
            match_row(
                lines,
                span,
                row + 1,
                last,
                left_of(start, chars),
                left_of(end, chars),
                found,
            )
        }
    }
}

/// Row that a match within a logical line of an output begins on.
pub open spec fn output_match_row(
    state: TerminalState,
    id: Seq<char>,
    line_no: int,
    start: int,
    end: int,
) -> Option<int> {
    if start >= end {
        None
    } else {
        match (output_span(state, id), output_line_row(state, id, line_no)) {
            (Some(span), Some(row)) => if span.1.0 == span.0.0 && span.1.1 < span.0.1 {
                None
            } else {
                match_row(state.document(), span, row, last_output_row(span), start, end, None)
            },
            _ => None,
        }
    }
}

/// The stable position at the beginning of a row.
pub open spec fn row_anchor(state: TerminalState, row: Option<int>) -> Option<BufferAnchor> {
    match row {
        Some(row) => Some(
            BufferAnchor { line_id: state.line_of_absolute(row), column: 0 },
        ),
        None => None,
    }
}

/// Counts the characters that the cells `from..to` show.
fn count_chars(cells: &Vec<TerminalCell>, from: usize, to: usize) -> (n: usize)
    requires
        from <= to <= cells@.len(),
    ensures
        n == row_text(cells@, from as int, to as int).len(),
{
    let end: usize = find_unpadded_end(cells, from, to);
    let mut n: usize = 0;
    let mut i: usize = from;
    while i < end
        invariant
            from <= i <= end <= cells@.len(),
            n == cell_chars(cells@, from as int, i as int).len(),
            n <= i - from,
        decreases end - i,
    {
        if !cells[i].flags.wide_continuation() {
            n = n + 1;
        }
        i = i + 1;
    }
    n
}

impl TerminalState {
    /// The rows and columns of a command's output.
    fn find_output_span(&self, id: &str) -> (span: Option<((usize, usize), (usize, usize))>)
        requires
            self.core_wf(),
        ensures
            match (output_span(*self, id@), span) {
                (Some(expected), Some(span)) => {
                    &&& expected.0.0 == span.0.0 && expected.0.1 == span.0.1
                    &&& expected.1.0 == span.1.0 && expected.1.1 == span.1.1
                    &&& span.0.0 <= span.1.0 < self.document().len()
                },
                (None, None) => true,
                _ => false,
            },
    {
        if self.use_alt_buffer {
            return None;
        }
        let record = match self.command_record(id) {
            Some(record) => record,
            None => {
                return None;
            },
        };
        match (record.output_start, record.output_end) {
            (Some(start), Some(end)) => match (
                self.buffer_anchor_to_absolute(start),
                self.buffer_anchor_to_absolute(end),
            ) {
                (Some(first), Some(last)) => if last.0 < first.0 {
                    None
                } else {
                    Some((first, last))
                },
                _ => None,
            },
            _ => None,
        }
    }

    /// Row that the logical line of an output begins on.
    fn find_output_line_row(&self, span: ((usize, usize), (usize, usize)), line_no: usize) -> (row:
        Option<usize>)
        requires
            self.core_wf(),
            span.0.0 <= span.1.0 < self.document().len(),
            line_no > 0,
        ensures
            match (
                logical_row(
                    self.document(),
                    span.0.0 as int,
                    last_output_row(
                        (
                            (span.0.0 as int, span.0.1 as int),
                            (span.1.0 as int, span.1.1 as int),
                        ),
                    ),
                    line_no as int,
                ),
                row,
            ) {
                (Some(expected), Some(row)) => expected == row && span.0.0 <= row <= span.1.0,
                (None, None) => true,
                _ => false,
            },
    {
        let last: usize = if span.1.1 == 0 && span.1.0 > span.0.0 {
            span.1.0 - 1
        } else {
            span.1.0
        };
        let ghost lines = self.document();
        let mut row: usize = span.0.0;
        let mut left: usize = line_no;
        while row <= last
            invariant
                self.core_wf(),
                lines == self.document(),
                span.0.0 <= row <= last + 1,
                last <= span.1.0 < lines.len(),
                lines.len() <= usize::MAX,
                1 <= left,
                logical_row(lines, span.0.0 as int, last as int, line_no as int)
                    == logical_row(lines, row as int, last as int, left as int),
                last == last_output_row(
                    ((span.0.0 as int, span.0.1 as int), (span.1.0 as int, span.1.1 as int)),
                ),
            decreases last + 1 - row,
        {
            if left == 1 {
                return Some(row);
            }
            if row < last {
                if let Some(wrapped) = self.absolute_row_is_wrapped(row) {
                    if !wrapped {
                        left = left - 1;
                    }
                }
            }
            row = row + 1;
        }
        None
    }

    /// The position of a logical line of a command's output, counted from one.
    pub fn command_output_line_anchor(&self, id: &str, line_no: usize) -> (anchor: Option<
        BufferAnchor,
    >)
        requires
            self.core_wf(),
        ensures
            anchor == row_anchor(*self, output_line_row(*self, id@, line_no as int)),
    {
        if line_no == 0 {
            return None;
        }
        let span = match self.find_output_span(id) {
            Some(span) => span,
            None => {
                return None;
            },
        };
        match self.find_output_line_row(span, line_no) {
            Some(row) => self.absolute_to_buffer_anchor((row, 0)),
            None => None,
        }
    }

    /// The position of the row that a match in a logical line of a command's
    /// output begins on. The match is given as a range of characters, all of
    /// which must still be there.
    pub fn command_output_match_anchor(
        &self,
        id: &str,
        line_no: usize,
        match_start: usize,
        match_end: usize,
    ) -> (anchor: Option<BufferAnchor>)
        requires
            self.core_wf(),
        ensures
            anchor == row_anchor(
                *self,
                output_match_row(
                    *self,
                    id@,
                    line_no as int,
                    match_start as int,
                    match_end as int,
                ),
            ),
    {
        if match_start >= match_end || line_no == 0 {
            return None;
        }
        let span = match self.find_output_span(id) {
            Some(span) => span,
            None => {
                return None;
            },
        };
        let first: usize = match self.find_output_line_row(span, line_no) {
            Some(row) => row,
            None => {
                return None;
            },
        };
        if span.1.0 == span.0.0 && span.1.1 < span.0.1 {
            return None;
        }
        match self.find_match_row(span, first, match_start, match_end) {
            Some(row) => self.absolute_to_buffer_anchor((row, 0)),
            None => None,
        }
    }

    /// Characters that a row contributes to an output.
    fn count_row_chars(&self, span: ((usize, usize), (usize, usize)), row: usize) -> (n: usize)
        requires
            self.core_wf(),
            row < self.document().len(),
            span.1.0 == span.0.0 ==> span.0.1 <= span.1.1,
        ensures
            n == row_chars_count(
                self.document(),
                ((span.0.0 as int, span.0.1 as int), (span.1.0 as int, span.1.1 as int)),
                row as int,
            ),
    {
        match self.absolute_row_cells(row) {
            Some(cells) => {
                let width: usize = cells.len();
                let from: usize = if row != span.0.0 {
                    0
                } else if span.0.1 < width {
                    span.0.1
                } else {
                    width
                };
                let to: usize = if row != span.1.0 || span.1.1 >= width {
                    width
                } else {
                    span.1.1
                };
                count_chars(&cells, from, to)
            },
            None => 0,
        }
    }

    /// Row that a match begins on.
    fn find_match_row(
        &self,
        span: ((usize, usize), (usize, usize)),
        first: usize,
        match_start: usize,
        match_end: usize,
    ) -> (found: Option<usize>)
        requires
            self.core_wf(),
            span.0.0 <= first,
            span.0.0 <= span.1.0 < self.document().len(),
            span.1.0 == span.0.0 ==> span.0.1 <= span.1.1,
        ensures
            match (
                match_row(
                    self.document(),
                    ((span.0.0 as int, span.0.1 as int), (span.1.0 as int, span.1.1 as int)),
                    first as int,
                    last_output_row(
                        (
                            (span.0.0 as int, span.0.1 as int),
                            (span.1.0 as int, span.1.1 as int),
                        ),
                    ),
                    match_start as int,
                    match_end as int,
                    None,
                ),
                found,
            ) {
                (Some(expected), Some(row)) => expected == row && row < self.document().len(),
                (None, None) => true,
                _ => false,
            },
    {
        let ghost lines = self.document();
        let ghost pair = (
            (span.0.0 as int, span.0.1 as int),
            (span.1.0 as int, span.1.1 as int),
        );
        let last: usize = if span.1.1 == 0 && span.1.0 > span.0.0 {
            span.1.0 - 1
        } else {
            span.1.0
        };
        let mut row: usize = first;
        let mut start: usize = match_start;
        let mut end: usize = match_end;
        let mut target: Option<usize> = None;
        while row <= last
            invariant
                self.core_wf(),
                lines == self.document(),
                pair == (
                    (span.0.0 as int, span.0.1 as int),
                    (span.1.0 as int, span.1.1 as int),
                ),
                span.1.0 == span.0.0 ==> span.0.1 <= span.1.1,
                first <= row,
                last == last_output_row(pair),
                last < lines.len(),
                lines.len() <= usize::MAX,
                target matches Some(t) ==> t < lines.len(),
                match_row(
                    lines,
                    pair,
                    first as int,
                    last as int,
                    match_start as int,
                    match_end as int,
                    None,
                ) == match_row(
                    lines,
                    pair,
                    row as int,
                    last as int,
                    start as int,
                    end as int,
                    target_of(target),
                ),
            decreases last + 1 - row,
        {
            let chars: usize = self.count_row_chars(span, row);
            if target.is_none() && start < chars {
                target = Some(row);
            }
            if end <= chars {
                return target;
            }
            match self.absolute_row_is_wrapped(row) {
                Some(wrapped) => {
                    if !wrapped {
                        return None;
                    }
                },
                None => {
                    return None;
                },
            }
            start = if start < chars {
                0
            } else {
                start - chars
            };
            end = end - chars;
            row = row + 1;
        }
        None
    }
}

/// A row number as a value.
pub open spec fn target_of(row: Option<usize>) -> Option<int> {
    match row {
        Some(row) => Some(row as int),
        None => None,
    }
}

/// The line that a prompt begins on: the next one where it stands behind the
/// last column.
pub open spec fn prompt_line(state: TerminalState, anchor: BufferAnchor) -> u64 {
    if anchor.column >= state.cols() {
        saturating_sum(anchor.line_id, 1)
    } else {
        anchor.line_id
    }
}

/// The line of the top or bottom edge of a command.
pub open spec fn edge_line(state: TerminalState, i: int, bottom: bool) -> u64 {
    let records = state.log@.records;
    let start = prompt_line(state, records[i].prompt_start);
    if !bottom {
        start
    } else if i + 1 < records.len() {
        let next = prompt_line(state, records[i + 1].prompt_start);
        if next == 0 {
            0
        } else {
            (next - 1) as u64
        }
    } else {
        match records[i].end {
            Some(end) => prompt_line(state, end),
            None => start,
        }
    }
}

/// The position of the top or bottom edge of a command, while it is retained.
pub open spec fn command_edge(state: TerminalState, id: Seq<char>, bottom: bool) -> Option<
    BufferAnchor,
> {
    if state.use_alt_buffer {
        None
    } else {
        match index_of_id(state.log@.records, id) {
            Some(i) => {
                let line_id = edge_line(state, i, bottom);
                if state.absolute_of_line(line_id) is Some {
                    Some(BufferAnchor { line_id, column: 0 })
                } else {
                    None
                }
            },
            None => None,
        }
    }
}

/// The offset that shows the top edge of a command at the top of the view, or
/// its bottom edge at the bottom as far as history allows.
pub open spec fn edge_offset(state: TerminalState, line_id: u64, bottom: bool) -> Option<int> {
    let above = state.rows() - 1;
    let top = if line_id < above {
        0
    } else {
        line_id - above
    };
    if bottom && offset_of_line(state, top as u64) is Some {
        offset_of_line(state, top as u64)
    } else {
        offset_of_line(state, line_id)
    }
}

impl TerminalState {
    /// The line that a prompt begins on.
    fn find_prompt_line(&self, anchor: BufferAnchor) -> (line_id: u64)
        ensures
            line_id == prompt_line(*self, anchor),
    {
        if anchor.column >= self.grid.cols {
            anchor.line_id.saturating_add(1)
        } else {
            anchor.line_id
        }
    }

    /// The position of the top or bottom edge of a command.
    pub fn command_edge_anchor(&self, id: &str, bottom: bool) -> (anchor: Option<BufferAnchor>)
        requires
            self.core_wf(),
        ensures
            anchor == command_edge(*self, id@, bottom),
    {
        if self.use_alt_buffer {
            return None;
        }
        let name = id.to_string();
        let i: usize = match self.log.record_index_for_id(&name) {
            Some(i) => i,
            None => {
                return None;
            },
        };
        let records = &self.log.records;
        assert(self.log@.records[i as int] == records@[i as int]@);
        let start: u64 = self.find_prompt_line(records[i].prompt_start);
        let line_id: u64 = if !bottom {
            start
        } else if i < records.len() - 1 {
            assert(self.log@.records[i + 1] == records@[i + 1]@);
            let next: u64 = self.find_prompt_line(records[i + 1].prompt_start);
            if next == 0 {
                0
            } else {
                next - 1
            }
        } else {
            match records[i].end {
                Some(end) => self.find_prompt_line(end),
                None => start,
            }
        };
        let anchor = BufferAnchor { line_id, column: 0 };
        match self.buffer_anchor_to_absolute(anchor) {
            Some(_) => Some(anchor),
            None => None,
        }
    }

    /// Scrolls to the top or bottom edge of a command.
    pub fn scroll_to_command_edge(&mut self, id: &str, bottom: bool) -> (found: bool)
        requires
            old(self).core_wf(),
        ensures
            final(self).core_wf(),
            match command_edge(*old(self), id@, bottom) {
                Some(anchor) => match edge_offset(*old(self), anchor.line_id, bottom) {
                    Some(offset) => found && view_moved(*old(self), offset, *final(self)),
                    None => !found && *final(self) == *old(self),
                },
                None => !found && *final(self) == *old(self),
            },
    {
        let target = match self.command_edge_anchor(id, bottom) {
            Some(target) => target,
            None => {
                return false;
            },
        };
        if !bottom {
            return self.scroll_to_line_id(target.line_id);
        }
        let above: u64 = (self.grid.rows.len() - 1) as u64;
        let top: u64 = target.line_id.saturating_sub(above);
        if self.scroll_to_line_id(top) {
            return true;
        }
        self.scroll_to_line_id(target.line_id)
    }
}

/// Marks without those whose line left the history, at the front.
pub open spec fn marks_pruned(marks: Seq<CommandMark>, first: int) -> Seq<CommandMark>
    decreases marks.len(),
{
    if marks.len() > 0 && marks[0].line_id < first {
        marks_pruned(marks.drop_first(), first)
    } else {
        marks
    }
}

/// The line of the last mark above a line.
pub open spec fn last_mark_above(marks: Seq<CommandMark>, line_id: u64) -> Option<u64>
    decreases marks.len(),
{
    if marks.len() == 0 {
        None
    } else if marks.last().line_id < line_id {
        Some(marks.last().line_id)
    } else {
        last_mark_above(marks.drop_last(), line_id)
    }
}

/// The line of the first mark below a line.
pub open spec fn first_mark_below(marks: Seq<CommandMark>, line_id: u64) -> Option<u64>
    decreases marks.len(),
{
    if marks.len() == 0 {
        None
    } else if marks[0].line_id > line_id {
        Some(marks[0].line_id)
    } else {
        first_mark_below(marks.drop_first(), line_id)
    }
}

/// `post` is `pre` with only marks that are retained.
pub open spec fn marks_cleaned(pre: TerminalState, post: TerminalState) -> bool {
    &&& post.command_marks@ == marks_pruned(pre.command_marks@, pre.first_line_id())
    &&& post == TerminalState { command_marks: post.command_marks, ..pre }
}

/// `post` is `pre` after a jump to the prompt above the view; `found` says
/// whether there is one.
pub open spec fn jumped_back(pre: TerminalState, found: bool, post: TerminalState) -> bool {
    if pre.use_alt_buffer {
        !found && post == pre
    } else {
        exists|mid: TerminalState|
            {
                &&& #[trigger] marks_cleaned(pre, mid)
                &&& match last_mark_above(
                    mid.command_marks@,
                    (pre.total_lines_scrolled - pre.scroll_offset) as u64,
                ) {
                    Some(line_id) => match offset_of_line(mid, line_id) {
                        Some(offset) => found && view_moved(mid, offset, post),
                        None => !found && post == mid,
                    },
                    None => !found && post == mid,
                }
            }
    }
}

/// `post` is `pre` after a jump to the prompt below the top of the view, or to
/// the live screen where there is none.
pub open spec fn jumped_forward(pre: TerminalState, found: bool, post: TerminalState) -> bool {
    if pre.use_alt_buffer {
        !found && post == pre
    } else {
        exists|mid: TerminalState|
            {
                &&& #[trigger] marks_cleaned(pre, mid)
                &&& match first_mark_below(
                    mid.command_marks@,
                    (pre.total_lines_scrolled - pre.scroll_offset) as u64,
                ) {
                    Some(line_id) => match offset_of_line(mid, line_id) {
                        Some(offset) => found && view_moved(mid, offset, post),
                        None => !found && post == mid,
                    },
                    None => found == (pre.scroll_offset != 0) && view_moved(mid, 0, post),
                }
            }
    }
}

impl TerminalState {
    /// Drops marks whose line left the history.
    fn prune_evicted_marks(&mut self)
        requires
            old(self).core_wf(),
        ensures
            final(self).core_wf(),
            marks_cleaned(*old(self), *final(self)),
    {
        let first: u64 = self.total_lines_scrolled - self.scrollback.len() as u64;
        while self.command_marks.len() > 0 && self.command_marks[0].line_id < first
            invariant
                self.core_wf(),
                first == old(self).first_line_id(),
                *self == (TerminalState { command_marks: self.command_marks, ..*old(self) }),
                marks_pruned(old(self).command_marks@, first as int) == marks_pruned(
                    self.command_marks@,
                    first as int,
                ),
            decreases self.command_marks@.len(),
        {
            let ghost before = self.command_marks@;
            let _mark = self.command_marks.pop_front();
            assert(self.command_marks@ =~= before.drop_first());
        }
    }

    /// The line of the last mark above a line.
    fn find_mark_above(&self, line_id: u64) -> (found: Option<u64>)
        ensures
            found == last_mark_above(self.command_marks@, line_id),
    {
        let ghost marks = self.command_marks@;
        let mut i: usize = self.command_marks.len();
        assert(marks.take(i as int) =~= marks);
        while i > 0
            invariant
                i <= marks.len(),
                marks == self.command_marks@,
                last_mark_above(marks, line_id) == last_mark_above(
                    marks.take(i as int),
                    line_id,
                ),
            decreases i,
        {
            assert(marks.take(i as int).last() == marks[i - 1]);
            assert(marks.take(i as int).drop_last() =~= marks.take(i - 1));
            let mark = self.command_marks[i - 1];
            if mark.line_id < line_id {
                return Some(mark.line_id);
            }
            i = i - 1;
        }
        None
    }

    /// The line of the first mark below a line.
    fn find_mark_below(&self, line_id: u64) -> (found: Option<u64>)
        ensures
            found == first_mark_below(self.command_marks@, line_id),
    {
        let ghost marks = self.command_marks@;
        let mut i: usize = 0;
        assert(marks.skip(0) =~= marks);
        while i < self.command_marks.len()
            invariant
                i <= marks.len(),
                marks == self.command_marks@,
                first_mark_below(marks, line_id) == first_mark_below(
                    marks.skip(i as int),
                    line_id,
                ),
            decreases marks.len() - i,
        {
            assert(marks.skip(i as int)[0] == marks[i as int]);
            assert(marks.skip(i as int).drop_first() =~= marks.skip(i + 1));
            let mark = self.command_marks[i];
            if mark.line_id > line_id {
                return Some(mark.line_id);
            }
            i = i + 1;
        }
        None
    }

    /// Jumps to the prompt above the view.
    pub fn jump_to_prev_command(&mut self) -> (found: bool)
        requires
            old(self).core_wf(),
        ensures
            final(self).core_wf(),
            jumped_back(*old(self), found, *final(self)),
    {
        if self.use_alt_buffer {
            return false;
        }
        let top: u64 = self.viewport_top_line_id();
        self.prune_evicted_marks();
        let ghost mid = *self;
        assert(marks_cleaned(*old(self), mid));
        match self.find_mark_above(top) {
            Some(line_id) => self.scroll_to_line_id(line_id),
            None => false,
        }
    }

    /// Jumps to the prompt below the top of the view.
    pub fn jump_to_next_command(&mut self) -> (found: bool)
        requires
            old(self).core_wf(),
        ensures
            final(self).core_wf(),
            jumped_forward(*old(self), found, *final(self)),
    {
        if self.use_alt_buffer {
            return false;
        }
        let top: u64 = self.viewport_top_line_id();
        self.prune_evicted_marks();
        let ghost mid = *self;
        assert(marks_cleaned(*old(self), mid));
        match self.find_mark_below(top) {
            Some(line_id) => self.scroll_to_line_id(line_id),
            None => {
                let moved = self.scroll_offset != 0;
                self.scroll_offset = 0;
                moved
            },
        }
    }
}

} // verus!
