//! Plain text of retained rows.

use vstd::prelude::*;

use crate::bounded_text::bounded_text_fits;
use crate::bounded_text::utf8_len;
use crate::bounded_text::BoundedTextBuilder;
use crate::bounded_text::ExtractedText;
use crate::cell::TerminalCell;
use crate::grid::Line;
use crate::provenance::BufferAnchor;
use crate::state::TerminalState;

verus! {

/// Whether a cell at the end of a row is padding.
pub open spec fn is_padding(cell: TerminalCell) -> bool {
    (cell.character == ' ' || cell.character == '\0') && !cell.flags.spec_continuation()
}

/// End of the cells `from..to` without the padding at their end.
pub open spec fn unpadded_end(cells: Seq<TerminalCell>, from: int, to: int) -> int
    decreases to - from,
{
    if from < to && is_padding(cells[to - 1]) {
        unpadded_end(cells, from, to - 1)
    } else {
        to
    }
}

/// The characters of the cells `from..to`, each double-width one once.
pub open spec fn cell_chars(cells: Seq<TerminalCell>, from: int, to: int) -> Seq<char>
    decreases to - from,
{
    if from >= to {
        Seq::empty()
    } else if cells[to - 1].flags.spec_continuation() {
        cell_chars(cells, from, to - 1)
    } else {
        cell_chars(cells, from, to - 1).push(cells[to - 1].character)
    }
}

/// The text of the cells `from..to` of a row without padding.
pub open spec fn row_text(cells: Seq<TerminalCell>, from: int, to: int) -> Seq<char> {
    cell_chars(cells, from, unpadded_end(cells, from, to))
}

/// First extracted column of `row` in a range that begins at `start`.
pub open spec fn piece_start(lines: Seq<Line>, start: (int, int), row: int) -> int {
    let width = lines[row].cells.len() as int;
    if row != start.0 {
        0
    } else if start.1 < width {
        start.1
    } else {
        width
    }
}

/// End of the extracted columns of `row` in a range that ends before `end`.
pub open spec fn piece_end(lines: Seq<Line>, end: (int, int), row: int) -> int {
    let width = lines[row].cells.len() as int;
    if row != end.0 || end.1 >= width {
        width
    } else {
        end.1
    }
}

/// What `row` contributes: its text, and a line break unless it wraps.
pub open spec fn row_piece(lines: Seq<Line>, start: (int, int), end: (int, int), row: int) -> Seq<
    char,
> {
    let text = row_text(
        lines[row].cells,
        piece_start(lines, start, row),
        piece_end(lines, end, row),
    );
    if row < end.0 && !lines[row].wrapped {
        text.push('\n')
    } else {
        text
    }
}

/// The text of the range from `start` up to row `to`, exclusive.
pub open spec fn text_before_row(
    lines: Seq<Line>,
    start: (int, int),
    end: (int, int),
    to: int,
) -> Seq<char>
    decreases to - start.0,
{
    if to <= start.0 {
        Seq::empty()
    } else {
        text_before_row(lines, start, end, to - 1) + row_piece(lines, start, end, to - 1)
    }
}

/// The text from `start` up to `end`, both given as row and column.
pub open spec fn range_text(lines: Seq<Line>, start: (int, int), end: (int, int)) -> Seq<char> {
    text_before_row(lines, start, end, end.0 + 1)
}

/// Whether a range of stable positions is ordered and retained.
pub open spec fn range_retained(
    state: TerminalState,
    start: BufferAnchor,
    end: BufferAnchor,
) -> bool {
    &&& start.precedes_or_is(end)
    &&& state.absolute_of_line(start.line_id) is Some
    &&& state.absolute_of_line(end.line_id) is Some
}

/// The text of a retained range of stable positions.
pub open spec fn anchored_text(
    state: TerminalState,
    start: BufferAnchor,
    end: BufferAnchor,
) -> Seq<char> {
    range_text(
        state.document(),
        (state.absolute_of_line(start.line_id)->0, start.column as int),
        (state.absolute_of_line(end.line_id)->0, end.column as int),
    )
}

/// The result of extracting a range: nothing where it is not retained.
pub open spec fn extraction(
    state: TerminalState,
    start: BufferAnchor,
    end: BufferAnchor,
    max_bytes: int,
    result: Option<ExtractedText>,
) -> bool {
    match result {
        Some(extracted) => range_retained(state, start, end) && extracted.holds(
            anchored_text(state, start, end),
            max_bytes,
        ),
        None => !range_retained(state, start, end),
    }
}

/// Where the padding at the end of `from..to` begins.
pub fn find_unpadded_end(cells: &Vec<TerminalCell>, from: usize, to: usize) -> (end: usize)
    requires
        from <= to <= cells@.len(),
    ensures
        end == unpadded_end(cells@, from as int, to as int),
        from <= end <= to,
{
    let mut end: usize = to;
    while end > from && (cells[end - 1].character == ' ' || cells[end - 1].character == '\0')
        && !cells[end - 1].flags.wide_continuation()
        invariant
            from <= end <= to <= cells@.len(),
            unpadded_end(cells@, from as int, to as int) == unpadded_end(
                cells@,
                from as int,
                end as int,
            ),
        decreases end,
    {
        end = end - 1;
    }
    end
}

/// Collects the text of the cells `from..to` of a row.
fn collect_row(
    builder: &mut BoundedTextBuilder,
    cells: &Vec<TerminalCell>,
    from: usize,
    to: usize,
)
    requires
        old(builder).wf(),
        from <= to <= cells@.len(),
    ensures
        final(builder).wf(),
        final(builder).max_bytes == old(builder).max_bytes,
        final(builder).seen@ == old(builder).seen@ + row_text(cells@, from as int, to as int),
{
    let end: usize = find_unpadded_end(cells, from, to);
    let mut i: usize = from;
    let ghost before = builder.seen@;
    assert(before + Seq::<char>::empty() =~= before);
    while i < end
        invariant
            from <= i <= end <= cells@.len(),
            builder.wf(),
            builder.max_bytes == old(builder).max_bytes,
            builder.seen@ == before + cell_chars(cells@, from as int, i as int),
        decreases end - i,
    {
        if !cells[i].flags.wide_continuation() {
            builder.push(cells[i].character);
        }
        i = i + 1;
        assert(builder.seen@ =~= before + cell_chars(cells@, from as int, i as int));
    }
}

impl TerminalState {
    /// Extracts the text of `[start, end)`. Wrapped rows are joined, other
    /// rows end in a line break, padding is left out, and the text never
    /// exceeds `max_bytes`.
    pub fn extract_text_range(&self, start: BufferAnchor, end: BufferAnchor, max_bytes: usize) -> (
    result: Option<ExtractedText>)
        requires
            self.core_wf(),
        ensures
            extraction(*self, start, end, max_bytes as int, result),
    {
        if !start.le(&end) {
            return None;
        }
        let (start_row, start_col) = match self.buffer_anchor_to_absolute(start) {
            Some(found) => found,
            None => return None,
        };
        let (end_row, end_col) = match self.buffer_anchor_to_absolute(end) {
            Some(found) => found,
            None => return None,
        };
        let ghost lines = self.document();
        let ghost from = (start_row as int, start_col as int);
        let ghost to = (end_row as int, end_col as int);
        let mut builder = BoundedTextBuilder::new(max_bytes);
        let mut row: usize = start_row;
        while row <= end_row
            invariant
                self.core_wf(),
                lines == self.document(),
                from == (start_row as int, start_col as int),
                to == (end_row as int, end_col as int),
                start_row <= row <= end_row + 1,
                end_row < lines.len(),
                start_row == end_row ==> start_col <= end_col,
                builder.wf(),
                builder.max_bytes == max_bytes,
                builder.seen@ == text_before_row(lines, from, to, row as int),
            decreases end_row + 1 - row,
        {
            if let Some(cells) = self.absolute_row_cells(row) {
                let row_start: usize = if row == start_row {
                    if start_col < cells.len() {
                        start_col
                    } else {
                        cells.len()
                    }
                } else {
                    0
                };
                let row_end: usize = if row == end_row && end_col < cells.len() {
                    end_col
                } else {
                    cells.len()
                };
                collect_row(&mut builder, &cells, row_start, row_end);
                if row < end_row {
                    if let Some(wrapped) = self.absolute_row_is_wrapped(row) {
                        if !wrapped {
                            builder.push('\n');
                        }
                    }
                }
            }
            row = row + 1;
            assert(builder.seen@ =~= text_before_row(lines, from, to, row as int));
        }
        Some(builder.finish())
    }

    /// Extracts the text between two retained cells.
    pub fn extract_absolute_text_range(
        &self,
        start: (usize, usize),
        end: (usize, usize),
        max_bytes: usize,
    ) -> (result: Option<ExtractedText>)
        requires
            self.core_wf(),
        ensures
            start.0 >= self.document().len() || end.0 >= self.document().len() ==> result is None,
            start.0 < self.document().len() && end.0 < self.document().len() ==> extraction(
                *self,
                BufferAnchor { line_id: self.line_of_absolute(start.0 as int), column: start.1 },
                BufferAnchor { line_id: self.line_of_absolute(end.0 as int), column: end.1 },
                max_bytes as int,
                result,
            ),
    {
        match (self.absolute_to_buffer_anchor(start), self.absolute_to_buffer_anchor(end)) {
            (Some(from), Some(to)) => self.extract_text_range(from, to, max_bytes),
            _ => None,
        }
    }

    /// Extracts the whole rows of an inclusive range of line numbers.
    pub fn extract_text_by_line_ids(
        &self,
        start_line_id: u64,
        end_line_id: u64,
        max_bytes: usize,
    ) -> (result: Option<ExtractedText>)
        requires
            self.core_wf(),
        ensures
            match result {
                Some(extracted) => start_line_id <= end_line_id && self.absolute_of_line(
                    start_line_id,
                ) is Some && self.absolute_of_line(end_line_id) is Some && extracted.holds(
                    whole_rows_text(
                        self.document(),
                        self.absolute_of_line(start_line_id)->0,
                        self.absolute_of_line(end_line_id)->0,
                    ),
                    max_bytes as int,
                ),
                None => start_line_id > end_line_id || self.absolute_of_line(start_line_id) is None
                    || self.absolute_of_line(end_line_id) is None,
            },
    {
        if end_line_id < start_line_id {
            return None;
        }
        let last = BufferAnchor { line_id: end_line_id, column: 0 };
        let (end_row, _) = match self.buffer_anchor_to_absolute(last) {
            Some(found) => found,
            None => return None,
        };
        let cells = match self.absolute_row_cells(end_row) {
            Some(cells) => cells,
            None => return None,
        };
        self.extract_text_range(
            BufferAnchor { line_id: start_line_id, column: 0 },
            BufferAnchor { line_id: end_line_id, column: cells.len() },
            max_bytes,
        )
    }
}

/// The text of the whole rows `first..=last`.
pub open spec fn whole_rows_text(lines: Seq<Line>, first: int, last: int) -> Seq<char> {
    range_text(lines, (first, 0), (last, lines[last].cells.len() as int))
}

/// An extracted text never takes more bytes than the caller allowed, and it is
/// complete whenever it is not marked as truncated.
pub proof fn extraction_is_bounded(
    state: TerminalState,
    start: BufferAnchor,
    end: BufferAnchor,
    max_bytes: int,
    extracted: ExtractedText,
)
    requires
        max_bytes >= 0,
        extraction(state, start, end, max_bytes, Some(extracted)),
    ensures
        utf8_len(extracted.text@) <= max_bytes,
        !extracted.truncated ==> extracted.text@ == anchored_text(state, start, end),
{
    bounded_text_fits(anchored_text(state, start, end), max_bytes);
}

} // verus!
