//! What a double click selects.

use vstd::prelude::*;

use crate::cell::TerminalCell;
use crate::selection::word_selected;
use crate::state::SelectionMode;
use crate::state::TerminalState;
use crate::words::alphanumeric;
use crate::words::belongs;
use crate::words::first_joined;
use crate::words::flattened;
use crate::words::last_joined;
use crate::words::run_left;
use crate::words::run_right;
use crate::words::token_span;
use crate::words::unwrapped_left;
use crate::words::unwrapped_right;
use crate::words::word_span;
use crate::words::RunKind;

verus! {

/// Whether a character is a letter or a digit. The ASCII ones are listed, the
/// others are those of Unicode.
pub open spec fn letter_or_digit(c: char) -> bool {
    if (c as u32) < 128 {
        '0' <= c <= '9' || 'A' <= c <= 'Z' || 'a' <= c <= 'z'
    } else {
        alphanumeric(c)
    }
}

/// Whether a character joins the words of a path, a name or an address.
pub open spec fn joiner(c: char) -> bool {
    seq!['/', '\\', '.', ':', '-', '~', '?', '&', '=', '#', '%', '+', '@'].contains(c)
}

/// Whether letters and digits are told apart from other ASCII characters as the
/// standard library does.
pub open spec fn reads_ascii() -> bool {
    forall|c: char| (c as u32) < 128 ==> #[trigger] alphanumeric(c) == letter_or_digit(c)
}

/// A token is made of letters, digits, underscores and joiners, and of nothing
/// else.
pub proof fn tokens_are_words_and_joiners(c: char)
    requires
        reads_ascii(),
    ensures
        belongs(RunKind::Token, c) <==> letter_or_digit(c) || c == '_' || joiner(c),
        belongs(RunKind::Word, c) <==> letter_or_digit(c) || c == '_',
        belongs(RunKind::Whitespace, c) <==> c == ' ' || c == '\t' || c == '\0',
        belongs(RunKind::Symbol, c) <==> !belongs(RunKind::Word, c) && !belongs(
            RunKind::Whitespace,
            c,
        ),
{
    let list = seq!['/', '\\', '.', ':', '-', '~', '?', '&', '=', '#', '%', '+', '@'];
    assert(list[0] == '/' && list[1] == '\\' && list[2] == '.' && list[3] == ':' && list[4] == '-'
        && list[5] == '~' && list[6] == '?' && list[7] == '&' && list[8] == '=' && list[9] == '#'
        && list[10] == '%' && list[11] == '+' && list[12] == '@');
    if list.contains(c) {
        let i = choose|i: int| 0 <= i < list.len() && list[i] == c;
        assert(list[i] == c);
    }
    assert(alphanumeric(c) == letter_or_digit(c));
}

/// Whether the character at `k` has its right half, where it has two, and a right
/// half at `k` its left one.
pub open spec fn half_fits(line: Seq<TerminalCell>, k: int) -> bool {
    &&& line[k].flags.spec_wide() ==> k + 1 < line.len() && line[k + 1].flags.spec_continuation()
    &&& line[k].flags.spec_continuation() ==> k > 0 && line[k - 1].flags.spec_wide()
}

/// Whether no half of a double-width character of a row stands alone.
pub open spec fn halves_together(line: Seq<TerminalCell>) -> bool {
    forall|k: int| 0 <= k < line.len() ==> #[trigger] half_fits(line, k)
}

/// Whether the cells `left..=right` are a run of characters that satisfy `test`,
/// with nothing next to them that would lengthen it.
pub open spec fn maximal_run(
    line: Seq<TerminalCell>,
    left: int,
    right: int,
    test: spec_fn(char) -> bool,
) -> bool {
    &&& 0 <= left <= right < line.len()
    &&& forall|k: int|
        left <= k <= right ==> (#[trigger] line[k]).flags.spec_continuation() || test(
            line[k].character,
        )
    &&& left > 0 ==> !line[left - 1].flags.spec_continuation() && !test(line[left - 1].character)
    &&& right + 1 < line.len() ==> !line[right + 1].flags.spec_continuation() && !test(
        line[right + 1].character,
    )
}

/// Whether a character is part of a token.
pub open spec fn token_char() -> spec_fn(char) -> bool {
    |c: char| letter_or_digit(c) || c == '_' || joiner(c)
}

/// Whether a character is part of a word.
pub open spec fn word_char() -> spec_fn(char) -> bool {
    |c: char| letter_or_digit(c) || c == '_'
}

/// A run begins where its cells do.
proof fn lemma_left(
    line: Seq<TerminalCell>,
    kind: RunKind,
    left: int,
    right: int,
    at: int,
    test: spec_fn(char) -> bool,
)
    requires
        maximal_run(line, left, right, test),
        left <= at <= right + 1,
        forall|k: int|
            0 <= k < line.len() ==> belongs(kind, (#[trigger] line[k]).character) == test(
                line[k].character,
            ),
    ensures
        run_left(line, kind, at) == left,
    decreases at,
{
    if at > left {
        assert(line[at - 1].flags.spec_continuation() || test(line[at - 1].character));
        lemma_left(line, kind, left, right, at - 1, test);
    }
}

/// A run ends where its cells do.
proof fn lemma_right(
    line: Seq<TerminalCell>,
    kind: RunKind,
    left: int,
    right: int,
    at: int,
    test: spec_fn(char) -> bool,
)
    requires
        maximal_run(line, left, right, test),
        halves_together(line),
        left <= at <= right,
        !line[at].flags.spec_continuation(),
        forall|k: int|
            0 <= k < line.len() ==> belongs(kind, (#[trigger] line[k]).character) == test(
                line[k].character,
            ),
    ensures
        ({
            let last = run_right(line, kind, at);
            &&& at <= last <= right
            &&& line[last].flags.spec_wide() ==> last + 1 == right
            &&& !line[last].flags.spec_wide() ==> last == right
            &&& !line[last].flags.spec_continuation()
        }),
    decreases line.len() - at,
{
    assert(half_fits(line, at));
    let wide = line[at].flags.spec_wide();
    let next = if wide {
        at + 2
    } else {
        at + 1
    };
    if wide {
        assert(line[at + 1].flags.spec_continuation());
        assert(at + 1 <= right) by {
            if at == right {
                assert(!line[right + 1].flags.spec_continuation());
            }
        }
    }
    if next <= right {
        assert(half_fits(line, next));
        assert(!line[next].flags.spec_continuation());
        assert(test(line[next].character));
        lemma_right(line, kind, left, right, next, test);
    } else if next < line.len() {
        assert(next == right + 1);
        assert(!line[next].flags.spec_continuation() && !test(line[next].character));
    }
}

/// A double click on a cell of a run of letters, digits, underscores and joiners
/// selects the whole run, where it has a letter or digit and a joiner in it.
pub proof fn tokens_are_selected_whole(
    line: Seq<TerminalCell>,
    start: int,
    left: int,
    right: int,
    letter: int,
    join: int,
)
    requires
        reads_ascii(),
        halves_together(line),
        maximal_run(line, left, right, token_char()),
        left <= start <= right,
        !line[start].flags.spec_continuation(),
        !line[left].flags.spec_continuation(),
        left <= letter <= right,
        !line[letter].flags.spec_continuation(),
        letter_or_digit(line[letter].character),
        left <= join <= right,
        !line[join].flags.spec_continuation(),
        joiner(line[join].character),
    ensures
        token_span(line, start) == Some((left, right)),
{
    let test = token_char();
    assert forall|k: int| 0 <= k < line.len() implies belongs(
        RunKind::Token,
        (#[trigger] line[k]).character,
    ) == test(line[k].character) by {
        tokens_are_words_and_joiners(line[k].character);
    }
    tokens_are_words_and_joiners(line[letter].character);
    tokens_are_words_and_joiners(line[join].character);
    lemma_left(line, RunKind::Token, left, right, start, test);
    lemma_right(line, RunKind::Token, left, right, start, test);
    let last = run_right(line, RunKind::Token, start);
    lemma_no_wrapper(line[left].character);
    lemma_no_wrapper(line[last].character);
    assert(unwrapped_left(line, left, start) == left);
    assert(unwrapped_right(line, last, start) == last);
    assert(half_fits(line, last));
    assert(letter <= last && join <= last);
    assert(alphanumeric(line[letter].character) == letter_or_digit(line[letter].character));
    assert(crate::words::has_alphanumeric(line, left, last));
    lemma_joins(line[join].character);
    assert(crate::words::has_separator(line, left, last));
}

/// A joiner joins.
proof fn lemma_joins(c: char)
    requires
        joiner(c),
    ensures
        crate::words::is_separator(c),
{
    let list = seq!['/', '\\', '.', ':', '-', '~', '?', '&', '=', '#', '%', '+', '@'];
    let i = choose|i: int| 0 <= i < list.len() && list[i] == c;
    assert(list[i] == c);
}

/// No part of a token wraps one.
proof fn lemma_no_wrapper(c: char)
    requires
        reads_ascii(),
        letter_or_digit(c) || c == '_' || joiner(c),
    ensures
        !crate::words::is_prefix_wrapper(c),
        !crate::words::is_suffix_wrapper(c),
{
    if joiner(c) {
        lemma_joins(c);
    }
}

/// The first row of a logical line is the one that `first` is.
proof fn lemma_first_row(wrapped: Seq<bool>, first: int, row: int)
    requires
        0 <= first <= row,
        row <= wrapped.len(),
        forall|k: int| first <= k < row ==> #[trigger] wrapped[k],
        first > 0 ==> !wrapped[first - 1],
    ensures
        first_joined(wrapped, row) == first,
    decreases row - first,
{
    if row > first {
        assert(wrapped[row - 1]);
        lemma_first_row(wrapped, first, row - 1);
    }
}

/// The last row of a logical line is the one that `last` is.
proof fn lemma_last_row(wrapped: Seq<bool>, row: int, last: int, height: int)
    requires
        0 <= row <= last < height,
        height <= wrapped.len(),
        forall|k: int| row <= k < last ==> #[trigger] wrapped[k],
        last + 1 < height ==> !wrapped[last],
    ensures
        last_joined(wrapped, row, height) == last,
    decreases last - row,
{
    if row < last {
        assert(wrapped[row]);
        lemma_last_row(wrapped, row + 1, last, height);
    }
}

/// The cells of rows of one width, one after the other.
proof fn lemma_flat(rows: Seq<Seq<TerminalCell>>, first: int, last: int, cols: int, r: int, c: int)
    requires
        0 <= first <= r <= last < rows.len(),
        0 <= c < cols,
        forall|k: int| 0 <= k < rows.len() ==> (#[trigger] rows[k]).len() == cols,
    ensures
        flattened(rows, first, last).len() == (last - first + 1) * cols,
        0 <= (r - first) * cols + c < (last - first + 1) * cols,
        flattened(rows, first, last)[(r - first) * cols + c] == rows[r][c],
    decreases last - first,
{
    assert((last - first + 1) * cols == (last - first) * cols + cols) by (nonlinear_arith);
    if last == first {
        assert(flattened(rows, first, last - 1) =~= Seq::<TerminalCell>::empty());
        assert((last - first) * cols == 0) by (nonlinear_arith)
            requires
                last == first,
        ;
        assert((r - first) * cols == 0) by (nonlinear_arith)
            requires
                r == first,
        ;
    } else {
        if r < last {
            lemma_flat(rows, first, last - 1, cols, r, c);
        } else {
            lemma_flat(rows, first, last - 1, cols, last - 1, c);
        }
    }
}

/// Whether the rows `first..=last` of a view of rows of one width are all the
/// rows of the logical line of `row`: each but the last goes on in the next.
pub open spec fn is_logical_line(
    rows: Seq<Seq<TerminalCell>>,
    wrapped: Seq<bool>,
    cols: int,
    first: int,
    row: int,
    last: int,
) -> bool {
    &&& 0 <= first <= row <= last < rows.len()
    &&& wrapped.len() == rows.len()
    &&& cols > 0
    &&& forall|k: int| 0 <= k < rows.len() ==> (#[trigger] rows[k]).len() == cols
    &&& forall|k: int| first <= k < last ==> #[trigger] wrapped[k]
    &&& first > 0 ==> !wrapped[first - 1]
    &&& last + 1 < rows.len() ==> !wrapped[last]
}

/// Whether `flat` holds the cells of the rows `first..=last`, one after the other.
pub open spec fn is_flat(
    rows: Seq<Seq<TerminalCell>>,
    cols: int,
    first: int,
    last: int,
    flat: Seq<TerminalCell>,
) -> bool {
    &&& flat.len() == (last - first + 1) * cols
    &&& forall|n: int|
        0 <= n < flat.len() ==> #[trigger] flat[n] == rows[first + n / cols][n % cols]
}

/// The cells of a logical line, one after the other, are what words are looked
/// for in.
proof fn lemma_is_flat(
    rows: Seq<Seq<TerminalCell>>,
    cols: int,
    first: int,
    last: int,
    flat: Seq<TerminalCell>,
)
    requires
        0 <= first <= last < rows.len(),
        cols > 0,
        forall|k: int| 0 <= k < rows.len() ==> (#[trigger] rows[k]).len() == cols,
        is_flat(rows, cols, first, last, flat),
    ensures
        flattened(rows, first, last) == flat,
{
    let other = flattened(rows, first, last);
    lemma_flat(rows, first, last, cols, first, 0);
    assert forall|n: int| 0 <= n < flat.len() implies #[trigger] flat[n] == other[n] by {
        let r = n / cols;
        let c = n % cols;
        assert(0 <= r < last - first + 1 && 0 <= c < cols && n == r * cols + c)
            by (nonlinear_arith)
            requires
                0 <= n < (last - first + 1) * cols,
                cols > 0,
                r == n / cols,
                c == n % cols,
        ;
        lemma_flat(rows, first, last, cols, first + r, c);
    }
    assert(other =~= flat);
}

/// A double click selects the whole path, name or address that it hits, also
/// where it goes on over rows: the longest run of letters, digits, underscores
/// and joiners in the logical line, if there is a letter or digit and a joiner
/// in it. A click on the right half of a character means its left half.
pub proof fn double_clicks_select_tokens(
    rows: Seq<Seq<TerminalCell>>,
    wrapped: Seq<bool>,
    cols: int,
    first: int,
    row: int,
    last: int,
    col: int,
    flat: Seq<TerminalCell>,
    start: int,
    left: int,
    right: int,
    letter: int,
    join: int,
)
    requires
        reads_ascii(),
        is_logical_line(rows, wrapped, cols, first, row, last),
        is_flat(rows, cols, first, last, flat),
        halves_together(flat),
        0 <= col < cols,
        start == (row - first) * cols + col || (start + 1 == (row - first) * cols + col && col > 0
            && rows[row][col].flags.spec_continuation()),
        !flat[start].flags.spec_continuation(),
        maximal_run(flat, left, right, token_char()),
        left <= start <= right,
        !flat[left].flags.spec_continuation(),
        left <= letter <= right,
        !flat[letter].flags.spec_continuation(),
        letter_or_digit(flat[letter].character),
        left <= join <= right,
        !flat[join].flags.spec_continuation(),
        joiner(flat[join].character),
    ensures
        word_span(rows, wrapped, row, col) == Some(
            ((first + left / cols, left % cols), (first + right / cols, right % cols)),
        ),
{
    lemma_first_row(wrapped, first, row);
    lemma_last_row(wrapped, row, last, rows.len() as int);
    lemma_is_flat(rows, cols, first, last, flat);
    lemma_flat(rows, first, last, cols, row, col);
    tokens_are_selected_whole(flat, start, left, right, letter, join);
    if start + 1 == (row - first) * cols + col && start != (row - first) * cols + col {
        assert(crate::words::clicked(rows[row], col) == col - 1);
    } else {
        assert(!rows[row][col].flags.spec_continuation());
    }
}

/// A double click on a word that no joiner touches selects the word, one
/// between words the blanks, and one on other characters these. Such a run stays
/// within its row.
pub proof fn double_clicks_select_words(
    rows: Seq<Seq<TerminalCell>>,
    wrapped: Seq<bool>,
    cols: int,
    row: int,
    col: int,
    kind: RunKind,
    left: int,
    right: int,
)
    requires
        reads_ascii(),
        is_logical_line(rows, wrapped, cols, row, row, row),
        halves_together(rows[row]),
        kind != RunKind::Token,
        0 <= left <= col <= right < cols,
        !rows[row][col].flags.spec_continuation(),
        !rows[row][left].flags.spec_continuation(),
        belongs(kind, rows[row][col].character),
        maximal_run(rows[row], left, right, |c: char| belongs(kind, c)),
        kind == RunKind::Word || !joiner(rows[row][col].character),
        kind == RunKind::Word ==> (left > 0 ==> !joiner(rows[row][left - 1].character)) && (right
            + 1 < cols ==> !joiner(rows[row][right + 1].character)),
    ensures
        word_span(rows, wrapped, row, col) == Some(((row, left), (row, right))),
{
    let line = rows[row];
    let test = |c: char| belongs(kind, c);
    lemma_first_row(wrapped, row, row);
    lemma_last_row(wrapped, row, row, rows.len() as int);
    assert(flattened(rows, row, row - 1) =~= Seq::<TerminalCell>::empty());
    assert(flattened(rows, row, row) =~= line);
    assert((row - row) * cols == 0) by (nonlinear_arith);
    lemma_left(line, kind, left, right, col, test);
    lemma_right(line, kind, left, right, col, test);
    assert(half_fits(line, run_right(line, kind, col)));
    tokens_are_words_and_joiners(line[col].character);
    assert(crate::words::class_of(line[col].character) == kind);
    if kind == RunKind::Word {
        lemma_plain_word(line, col, left, right);
    } else {
        assert(token_span(line, col) is None);
    }
}

/// A word that no joiner touches is no token.
proof fn lemma_plain_word(line: Seq<TerminalCell>, start: int, left: int, right: int)
    requires
        reads_ascii(),
        halves_together(line),
        maximal_run(line, left, right, |c: char| belongs(RunKind::Word, c)),
        left <= start <= right,
        !line[start].flags.spec_continuation(),
        left > 0 ==> !joiner(line[left - 1].character),
        right + 1 < line.len() ==> !joiner(line[right + 1].character),
    ensures
        token_span(line, start) is None,
{
    let test = token_char();
    assert forall|k: int| 0 <= k < line.len() implies belongs(
        RunKind::Token,
        (#[trigger] line[k]).character,
    ) == test(line[k].character) by {
        tokens_are_words_and_joiners(line[k].character);
    }
    assert(maximal_run(line, left, right, test)) by {
        assert forall|k: int| left <= k <= right implies (
        #[trigger] line[k]).flags.spec_continuation() || test(line[k].character) by {
            tokens_are_words_and_joiners(line[k].character);
        }
        if left > 0 {
            tokens_are_words_and_joiners(line[left - 1].character);
        }
        if right + 1 < line.len() {
            tokens_are_words_and_joiners(line[right + 1].character);
        }
    }
    lemma_left(line, RunKind::Token, left, right, start, test);
    lemma_right(line, RunKind::Token, left, right, start, test);
    let last = run_right(line, RunKind::Token, start);
    let from = unwrapped_left(line, left, start);
    let to = unwrapped_right(line, last, start);
    lemma_unwrapped_bounds(line, left, last, start);
    if crate::words::has_separator(line, from, to) {
        let i = choose|i: int|
            from <= i <= to && !(#[trigger] line[i]).flags.spec_continuation()
                && crate::words::is_separator(line[i].character);
        tokens_are_words_and_joiners(line[i].character);
        lemma_only_joins(line[i].character);
        assert(belongs(RunKind::Word, line[i].character));
    }
}

/// What is not in a word joins none of its parts.
proof fn lemma_only_joins(c: char)
    requires
        reads_ascii(),
        crate::words::is_separator(c),
    ensures
        !belongs(RunKind::Word, c),
{
    assert(alphanumeric(c) == letter_or_digit(c));
}

/// Unwrapping stays within the run.
proof fn lemma_unwrapped_bounds(line: Seq<TerminalCell>, left: int, right: int, start: int)
    requires
        left <= start <= right,
    ensures
        left <= unwrapped_left(line, left, start) <= start,
        unwrapped_right(line, right, start) <= right,
    decreases right - left,
{
    if left < start && crate::words::is_prefix_wrapper(line[left].character) {
        lemma_unwrapped_bounds(line, left + 1, right, start);
    }
    lemma_unwrapped_right(line, right, start);
}

/// Unwrapping at the end only goes back.
proof fn lemma_unwrapped_right(line: Seq<TerminalCell>, right: int, start: int)
    ensures
        unwrapped_right(line, right, start) <= right,
    decreases right - start + 1,
{
    if right > start && crate::words::is_suffix_wrapper(line[right].character) {
        let next = if line[right].flags.spec_continuation() && right >= 2 {
            right - 2
        } else {
            right - 1
        };
        if next >= start - 1 {
            lemma_unwrapped_right(line, next, start);
        }
    }
}

/// The word that a double click finds is selected at the rows of the document that the
/// view shows.
pub proof fn found_words_are_selected(
    pre: TerminalState,
    rows: Seq<Seq<TerminalCell>>,
    wrapped: Seq<bool>,
    cell: (int, int),
    base: usize,
    post: TerminalState,
    start: (int, int),
    end: (int, int),
)
    requires
        word_selected(pre, rows, wrapped, cell, base, post),
        word_span(rows, wrapped, cell.0, cell.1) == Some((start, end)),
        0 <= start.0 && base + start.0 <= usize::MAX,
        0 <= end.0 && base + end.0 <= usize::MAX,
        0 <= start.1 <= usize::MAX,
        0 <= end.1 <= usize::MAX,
    ensures
        post.selection matches Some(selection) && selection.anchor == (
            (base + start.0) as usize,
            start.1 as usize,
        ) && selection.active == ((base + end.0) as usize, end.1 as usize) && selection.mode
            == SelectionMode::Normal,
        post.projected_selection is None,
        post.grid == pre.grid && post.scroll_offset == pre.scroll_offset,
{
}

} // verus!
