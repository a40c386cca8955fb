//! Words and tokens in rows of cells.

use vstd::prelude::*;

use crate::cell::TerminalCell;
use crate::view::rows_view;

verus! {

/// What `char::is_alphanumeric` of std says of a character.
pub uninterp spec fn alphanumeric(c: char) -> bool;

/// `char::is_alphanumeric` of std: whether a character is a letter or a number
/// in the sense of Unicode, which depends on the character alone. Of the ASCII
/// characters these are the digits and the letters of both cases.
pub assume_specification[ char::is_alphanumeric ](c: char) -> (yes: bool)
    ensures
        yes == alphanumeric(c),
        (c as u32) < 128 ==> yes == ascii_alphanumeric(c),
;

/// An ASCII digit or letter.
pub open spec fn ascii_alphanumeric(c: char) -> bool {
    let v = c as u32;
    0x30 <= v <= 0x39 || 0x41 <= v <= 0x5a || 0x61 <= v <= 0x7a
}

/// Kinds of characters that a run is made of.
#[derive(Clone, Copy, Debug, PartialEq, Eq, Structural)]
pub enum RunKind {
    Word,
    Whitespace,
    Symbol,
    /// Words and what joins them into paths and addresses.
    Token,
}

/// Whether a character belongs to words.
pub open spec fn is_word(c: char) -> bool {
    alphanumeric(c) || c == '_'
}

/// Whether a character separates words.
pub open spec fn is_blank_char(c: char) -> bool {
    c == ' ' || c == '\t' || c == '\0'
}

/// Whether a character joins words into a token.
pub open spec fn is_separator(c: char) -> bool {
    c == '/' || c == '\\' || c == '.' || c == ':' || c == '-' || c == '~' || c == '?' || c == '&'
        || c == '=' || c == '#' || c == '%' || c == '+' || c == '@'
}

/// Whether a character wraps the beginning of a token.
pub open spec fn is_prefix_wrapper(c: char) -> bool {
    c == '"' || c == '\'' || c == '`' || c == '(' || c == '[' || c == '{' || c == '<'
}

/// Whether a character wraps the end of a token.
pub open spec fn is_suffix_wrapper(c: char) -> bool {
    c == '"' || c == '\'' || c == '`' || c == ')' || c == ']' || c == '}' || c == '>' || c == ','
        || c == ';' || c == '!'
}

/// The kind of a character.
pub open spec fn class_of(c: char) -> RunKind {
    if is_word(c) {
        RunKind::Word
    } else if is_blank_char(c) {
        RunKind::Whitespace
    } else {
        RunKind::Symbol
    }
}

/// Whether a character belongs to a run.
pub open spec fn belongs(kind: RunKind, c: char) -> bool {
    if kind == RunKind::Token {
        is_word(c) || is_separator(c)
    } else {
        class_of(c) == kind
    }
}

/// Whether a character belongs to words.
fn is_word_char(c: char) -> (yes: bool)
    ensures
        yes == is_word(c),
{
    c.is_alphanumeric() || c == '_'
}

/// Whether a character joins words into a token.
fn is_extended_token_separator(c: char) -> (yes: bool)
    ensures
        yes == is_separator(c),
{
    c == '/' || c == '\\' || c == '.' || c == ':' || c == '-' || c == '~' || c == '?' || c == '&'
        || c == '=' || c == '#' || c == '%' || c == '+' || c == '@'
}

/// Whether a character wraps the beginning of a token.
fn is_token_prefix_wrapper(c: char) -> (yes: bool)
    ensures
        yes == is_prefix_wrapper(c),
{
    c == '"' || c == '\'' || c == '`' || c == '(' || c == '[' || c == '{' || c == '<'
}

/// Whether a character wraps the end of a token.
fn is_token_suffix_wrapper(c: char) -> (yes: bool)
    ensures
        yes == is_suffix_wrapper(c),
{
    c == '"' || c == '\'' || c == '`' || c == ')' || c == ']' || c == '}' || c == '>' || c == ','
        || c == ';' || c == '!'
}

/// The kind of a character.
pub fn char_class(c: char) -> (kind: RunKind)
    ensures
        kind == class_of(c),
{
    if is_word_char(c) {
        RunKind::Word
    } else if c == ' ' || c == '\t' || c == '\0' {
        RunKind::Whitespace
    } else {
        RunKind::Symbol
    }
}

/// Whether a character belongs to a run.
fn in_run(kind: RunKind, c: char) -> (yes: bool)
    ensures
        yes == belongs(kind, c),
{
    if kind == RunKind::Token {
        is_word_char(c) || is_extended_token_separator(c)
    } else {
        char_class(c) == kind
    }
}

/// Where the run that reaches `left` begins. Right halves of characters belong
/// to what is before them.
pub open spec fn run_left(line: Seq<TerminalCell>, kind: RunKind, left: int) -> int
    decreases left,
{
    if left <= 0 {
        0
    } else if line[left - 1].flags.spec_continuation() || belongs(
        kind,
        line[left - 1].character,
    ) {
        run_left(line, kind, left - 1)
    } else {
        left
    }
}

/// The cell behind the character at `right`.
pub open spec fn cell_after(line: Seq<TerminalCell>, right: int) -> int {
    if line[right].flags.spec_wide() {
        right + 2
    } else {
        right + 1
    }
}

/// The last character of the run that reaches `right`.
pub open spec fn run_right(line: Seq<TerminalCell>, kind: RunKind, right: int) -> int
    decreases line.len() - right,
{
    let next = cell_after(line, right);
    if next >= line.len() {
        right
    } else if line[next].flags.spec_continuation() {
        if next + 1 < line.len() && belongs(kind, line[next + 1].character) {
            run_right(line, kind, next + 1)
        } else {
            right
        }
    } else if belongs(kind, line[next].character) {
        run_right(line, kind, next)
    } else {
        right
    }
}

/// The beginning of a token without what wraps it.
pub open spec fn unwrapped_left(line: Seq<TerminalCell>, left: int, start: int) -> int
    decreases start - left,
{
    if left < start && is_prefix_wrapper(line[left].character) {
        unwrapped_left(line, left + 1, start)
    } else {
        left
    }
}

/// The end of a token without what wraps it.
pub open spec fn unwrapped_right(line: Seq<TerminalCell>, right: int, start: int) -> int
    decreases right - start + 1,
{
    if right > start && is_suffix_wrapper(line[right].character) {
        unwrapped_right(
            line,
            if line[right].flags.spec_continuation() && right >= 2 {
                right - 2
            } else {
                right - 1
            },
            start,
        )
    } else {
        right
    }
}

/// Whether some character in `left..=right` is a letter or a number.
pub open spec fn has_alphanumeric(line: Seq<TerminalCell>, left: int, right: int) -> bool {
    exists|i: int|
        left <= i <= right && !(#[trigger] line[i]).flags.spec_continuation() && alphanumeric(
            line[i].character,
        )
}

/// Whether some character in `left..=right` joins words.
pub open spec fn has_separator(line: Seq<TerminalCell>, left: int, right: int) -> bool {
    exists|i: int|
        left <= i <= right && !(#[trigger] line[i]).flags.spec_continuation() && is_separator(
            line[i].character,
        )
}

/// The end of a span with the right half of its last character.
pub open spec fn with_right_half(line: Seq<TerminalCell>, right: int) -> int {
    if line[right].flags.spec_wide() && right + 1 < line.len() {
        right + 1
    } else {
        right
    }
}

/// The token around a cell: words joined by separators, such as a path or an
/// address. A plain word is none.
pub open spec fn token_span(line: Seq<TerminalCell>, start: int) -> Option<(int, int)> {
    if start >= line.len() || !belongs(RunKind::Token, line[start].character) {
        None
    } else {
        let left = unwrapped_left(line, run_left(line, RunKind::Token, start), start);
        let right = unwrapped_right(line, run_right(line, RunKind::Token, start), start);
        if left > right || start < left || start > right || !has_alphanumeric(line, left, right)
            || !has_separator(line, left, right) {
            None
        } else {
            Some((left, with_right_half(line, right)))
        }
    }
}

/// Where a run begins.
fn find_run_left(line: &Vec<TerminalCell>, kind: RunKind, start: usize) -> (left: usize)
    requires
        start < line@.len(),
    ensures
        left == run_left(line@, kind, start as int),
        left <= start,
{
    let mut left: usize = start;
    while left > 0 && (line[left - 1].flags.wide_continuation() || in_run(
        kind,
        line[left - 1].character,
    ))
        invariant
            left <= start < line@.len(),
            run_left(line@, kind, start as int) == run_left(line@, kind, left as int),
        decreases left,
    {
        left = left - 1;
    }
    left
}

/// The last character of a run.
fn find_run_right(line: &Vec<TerminalCell>, kind: RunKind, start: usize) -> (right: usize)
    requires
        start < line@.len(),
    ensures
        right == run_right(line@, kind, start as int),
        start <= right < line@.len(),
{
    let cols: usize = line.len();
    let mut right: usize = start;
    loop
        invariant
            start <= right < cols,
            cols == line@.len(),
            run_right(line@, kind, start as int) == run_right(line@, kind, right as int),
        ensures
            right == run_right(line@, kind, start as int),
        decreases cols - right,
    {
        let step: usize = if line[right].flags.wide() {
            2
        } else {
            1
        };
        if step >= cols - right {
            break;
        }
        let next: usize = right + step;
        if line[next].flags.wide_continuation() {
            if next < cols - 1 && in_run(kind, line[next + 1].character) {
                right = next + 1;
            } else {
                break;
            }
        } else if in_run(kind, line[next].character) {
            right = next;
        } else {
            break;
        }
    }
    right
}

/// The token around a cell.
pub fn select_extended_token_span(line: &Vec<TerminalCell>, start_col: usize) -> (span: Option<
    (usize, usize),
>)
    ensures
        match (token_span(line@, start_col as int), span) {
            (Some(expected), Some(span)) => expected.0 == span.0 && expected.1 == span.1
                && span.0 <= start_col <= span.1 < line@.len(),
            (None, None) => true,
            _ => false,
        },
{
    let cols: usize = line.len();
    if start_col >= cols || !in_run(RunKind::Token, line[start_col].character) {
        return None;
    }
    let mut left: usize = find_run_left(line, RunKind::Token, start_col);
    let mut right: usize = find_run_right(line, RunKind::Token, start_col);
    let ghost first = left as int;
    let ghost last = right as int;
    while left < start_col && is_token_prefix_wrapper(line[left].character)
        invariant
            left <= start_col < cols,
            cols == line@.len(),
            unwrapped_left(line@, first, start_col as int) == unwrapped_left(
                line@,
                left as int,
                start_col as int,
            ),
        decreases start_col - left,
    {
        left = left + 1;
    }
    while right > start_col && is_token_suffix_wrapper(line[right].character)
        invariant
            right < cols,
            cols == line@.len(),
            unwrapped_right(line@, last, start_col as int) == unwrapped_right(
                line@,
                right as int,
                start_col as int,
            ),
        decreases right,
    {
        right = if line[right].flags.wide_continuation() && right >= 2 {
            right - 2
        } else {
            right - 1
        };
    }
    if left > right || start_col < left || start_col > right {
        return None;
    }
    let mut found_alphanumeric = false;
    let mut found_separator = false;
    let mut i: usize = left;
    while i <= right
        invariant
            left <= i <= right + 1,
            right < cols == line@.len(),
            found_alphanumeric == has_alphanumeric(line@, left as int, i - 1),
            found_separator == has_separator(line@, left as int, i - 1),
        decreases right + 1 - i,
    {
        let cell = line[i];
        let ghost before_a = has_alphanumeric(line@, left as int, i - 1);
        let ghost before_s = has_separator(line@, left as int, i - 1);
        let counted = !cell.flags.wide_continuation();
        let letter = counted && cell.character.is_alphanumeric();
        let joins = counted && is_extended_token_separator(cell.character);
        proof {
            if before_a {
                let k = choose|k: int|
                    left <= k <= i - 1 && !(#[trigger] line@[k]).flags.spec_continuation()
                        && alphanumeric(line@[k].character);
                assert(has_alphanumeric(line@, left as int, i as int));
            }
            if before_s {
                let k = choose|k: int|
                    left <= k <= i - 1 && !(#[trigger] line@[k]).flags.spec_continuation()
                        && is_separator(line@[k].character);
                assert(has_separator(line@, left as int, i as int));
            }
            assert(line@[i as int] == cell);
        }
        found_alphanumeric = found_alphanumeric || letter;
        found_separator = found_separator || joins;
        i = i + 1;
    }
    if !found_alphanumeric || !found_separator {
        return None;
    }
    if line[right].flags.wide() && right < cols - 1 {
        Some((left, right + 1))
    } else {
        Some((left, right))
    }
}

/// The run around a cell of one row.
pub open spec fn run_span(line: Seq<TerminalCell>, start: int) -> (int, int) {
    let kind = class_of(line[start].character);
    (
        run_left(line, kind, start),
        with_right_half(line, run_right(line, kind, start)),
    )
}

/// The run around a cell of one row.
pub fn find_run_span(line: &Vec<TerminalCell>, start: usize) -> (span: (usize, usize))
    requires
        start < line@.len(),
    ensures
        span.0 == run_span(line@, start as int).0,
        span.1 == run_span(line@, start as int).1,
        span.0 <= start <= span.1 < line@.len(),
{
    let kind = char_class(line[start].character);
    let left: usize = find_run_left(line, kind, start);
    let right: usize = find_run_right(line, kind, start);
    if line[right].flags.wide() && right < line.len() - 1 {
        (left, right + 1)
    } else {
        (left, right)
    }
}

/// First row of the logical line around a row of a view.
pub open spec fn first_joined(wrapped: Seq<bool>, row: int) -> int
    decreases row,
{
    if row > 0 && row - 1 < wrapped.len() && wrapped[row - 1] {
        first_joined(wrapped, row - 1)
    } else {
        row
    }
}

/// Last row of the logical line around a row of a view.
pub open spec fn last_joined(wrapped: Seq<bool>, row: int, height: int) -> int
    decreases height - row,
{
    if row + 1 < height && row < wrapped.len() && wrapped[row] {
        last_joined(wrapped, row + 1, height)
    } else {
        row
    }
}

/// The cells of the rows `first..=last`, one after the other.
pub open spec fn flattened(rows: Seq<Seq<TerminalCell>>, first: int, last: int) -> Seq<TerminalCell>
    decreases last - first + 1,
{
    if first > last {
        Seq::empty()
    } else {
        flattened(rows, first, last - 1) + rows[last]
    }
}

/// The cell that a click on `col` means: the left half of a character.
pub open spec fn clicked(line: Seq<TerminalCell>, col: int) -> int {
    if line[col].flags.spec_continuation() && col > 0 {
        col - 1
    } else {
        col
    }
}

/// The word or token around a cell of a view: its first and last cell.
pub open spec fn word_span(
    rows: Seq<Seq<TerminalCell>>,
    wrapped: Seq<bool>,
    row: int,
    col: int,
) -> Option<((int, int), (int, int))> {
    if row >= rows.len() || col >= rows[row].len() {
        None
    } else {
        let line = rows[row];
        let cols = line.len() as int;
        let start = clicked(line, col);
        let first = first_joined(wrapped, row);
        let last = last_joined(wrapped, row, rows.len() as int);
        match token_span(flattened(rows, first, last), (row - first) * cols + start) {
            Some((left, right)) => Some(
                ((first + left / cols, left % cols), (first + right / cols, right % cols)),
            ),
            None => Some(
                ((row, run_span(line, start).0), (row, run_span(line, start).1)),
            ),
        }
    }
}

/// A pair of cells as values.
pub open spec fn cell_pair(span: ((usize, usize), (usize, usize))) -> ((int, int), (int, int)) {
    ((span.0.0 as int, span.0.1 as int), (span.1.0 as int, span.1.1 as int))
}

/// Puts the rows of a logical line one after the other.
fn flatten(rows: &Vec<Vec<TerminalCell>>, first: usize, last: usize) -> (cells: Vec<TerminalCell>)
    requires
        first <= last < rows@.len(),
    ensures
        cells@ == flattened(rows_view(rows@), first as int, last as int),
{
    let ghost all = rows_view(rows@);
    let total: usize = rows.len();
    let mut cells: Vec<TerminalCell> = Vec::new();
    let mut r: usize = first;
    while r <= last
        invariant
            first <= r <= last + 1,
            last < total == rows@.len(),
            all == rows_view(rows@),
            cells@ == flattened(all, first as int, r - 1),
        decreases last + 1 - r,
    {
        let ghost before = cells@;
        let mut i: usize = 0;
        assert(before + all[r as int].take(0) =~= before);
        while i < rows[r].len()
            invariant
                i <= rows@[r as int]@.len(),
                r < rows@.len(),
                all == rows_view(rows@),
                cells@ == before + all[r as int].take(i as int),
            decreases rows@[r as int]@.len() - i,
        {
            cells.push(rows[r][i]);
            i = i + 1;
            assert(cells@ =~= before + all[r as int].take(i as int));
        }
        assert(all[r as int].take(i as int) =~= all[r as int]);
        r = r + 1;
    }
    cells
}

/// Whether all rows have the same width.
pub open spec fn is_uniform(rows: Seq<Seq<TerminalCell>>) -> bool {
    forall|r: int, q: int|
        0 <= r < rows.len() && 0 <= q < rows.len() ==> (#[trigger] rows[r]).len() == (
        #[trigger] rows[q]).len()
}

/// How many cells rows of one width have.
proof fn lemma_flattened_len(rows: Seq<Seq<TerminalCell>>, first: int, last: int, cols: int)
    requires
        0 <= first,
        last < rows.len(),
        first <= last + 1,
        forall|r: int| 0 <= r < rows.len() ==> (#[trigger] rows[r]).len() == cols,
    ensures
        flattened(rows, first, last).len() == (last - first + 1) * cols,
    decreases last - first + 1,
{
    if first <= last {
        lemma_flattened_len(rows, first, last - 1, cols);
        assert((last - first + 1) * cols == (last - first) * cols + cols) by (nonlinear_arith);
    } else {
        assert((last - first + 1) * cols == 0) by (nonlinear_arith)
            requires
                last - first + 1 == 0,
        ;
    }
}

/// A cell of row `r` stands among the cells of the rows up to `last`.
proof fn lemma_cell_index(r: int, c: int, last: int, cols: int)
    requires
        0 <= r <= last,
        0 <= c < cols,
    ensures
        0 <= r * cols,
        r * cols + c < (last + 1) * cols,
{
    assert(0 <= r * cols && r * cols + c < (last + 1) * cols) by (nonlinear_arith)
        requires
            0 <= r <= last,
            0 <= c < cols,
    ;
}

/// The row of a cell among the cells of the rows up to `last`.
proof fn lemma_row_of_cell(n: int, last: int, cols: int)
    requires
        0 <= n < (last + 1) * cols,
        cols > 0,
    ensures
        0 <= n / cols <= last,
        0 <= n % cols < cols,
{
    assert(0 <= n / cols <= last && 0 <= n % cols < cols) by (nonlinear_arith)
        requires
            0 <= n < (last + 1) * cols,
            cols > 0,
    ;
}

/// The word or token around a cell of a view.
pub fn word_span_in_view(
    rows: &Vec<Vec<TerminalCell>>,
    wrapped: &Vec<bool>,
    row: usize,
    col: usize,
) -> (span: Option<((usize, usize), (usize, usize))>)
    requires
        is_uniform(rows_view(rows@)),
    ensures
        match (
            word_span(rows_view(rows@), wrapped@, row as int, col as int),
            span,
        ) {
            (Some(expected), Some(span)) => expected == cell_pair(span),
            (None, None) => true,
            _ => false,
        },
{
    let height: usize = rows.len();
    if row >= height {
        return None;
    }
    let ghost all = rows_view(rows@);
    let cols: usize = rows[row].len();
    assert(all[row as int].len() == cols);
    if col >= cols {
        return None;
    }
    let start: usize = if rows[row][col].flags.wide_continuation() && col > 0 {
        col - 1
    } else {
        col
    };
    let mut first: usize = row;
    while first > 0 && first - 1 < wrapped.len() && wrapped[first - 1]
        invariant
            first <= row,
            first_joined(wrapped@, row as int) == first_joined(wrapped@, first as int),
        decreases first,
    {
        first = first - 1;
    }
    let mut last: usize = row;
    while last < height - 1 && last < wrapped.len() && wrapped[last]
        invariant
            row <= last < height,
            last_joined(wrapped@, row as int, height as int) == last_joined(
                wrapped@,
                last as int,
                height as int,
            ),
        decreases height - last,
    {
        last = last + 1;
    }
    let cells = flatten(rows, first, last);
    let total: usize = cells.len();
    assert(total == cells@.len());
    proof {
        lemma_flattened_len(all, first as int, last as int, cols as int);
        lemma_cell_index(
            (row - first) as int,
            start as int,
            (last - first) as int,
            cols as int,
        );
    }
    let token = select_extended_token_span(&cells, (row - first) * cols + start);
    match token {
        Some((left, right)) => {
            proof {
                lemma_row_of_cell(left as int, (last - first) as int, cols as int);
                lemma_row_of_cell(right as int, (last - first) as int, cols as int);
            }
            Some(
                (
                    (first + left / cols, left % cols),
                    (first + right / cols, right % cols),
                ),
            )
        },
        None => {
            let span = find_run_span(&rows[row], start);
            Some(((row, span.0), (row, span.1)))
        },
    }
}

} // verus!
