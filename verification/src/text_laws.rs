//! What plain text does to the screen and the history.

use vstd::prelude::*;

use crate::cell::spec_char_width;
use crate::control::col_left;
use crate::control::tabbed;
use crate::cursor::cursor_at;
use crate::cursor::cursor_moved;
use crate::cursor::line_fed;
use crate::grid::Line;
use crate::lifecycle::ClockReading;
use crate::output::noted_advance;
use crate::output::noted_reposition;
use crate::output::noted_wrap;
use crate::output::noted_write;
use crate::output::only_active_changed;
use crate::parser::batch_begun;
use crate::parser::batch_ended;
use crate::parser::control_executed;
use crate::parser::decoded_char;
use crate::parser::ground_step;
use crate::parser::input_processed;
use crate::parser::input_run;
use crate::parser::input_step;
use crate::parser::is_printable;
use crate::parser::utf8_length;
use crate::provenance::RowSpan;
use crate::scrolling::archived_and_counted;
use crate::scrolling::archives_rows;
use crate::scrolling::grid_moved_up;
use crate::scrolling::history_full;
use crate::scrolling::region_scrolled_up;
use crate::scrolling::row_lost;
use crate::scrolling::spans_invalidated;
use crate::state::saturating_sum;
use crate::state::Charset;
use crate::state::ParserMode;
use crate::state::TerminalState;
use crate::text::composition;
use crate::writing::ascii_drawn;
use crate::writing::ascii_run_overwritten;
use crate::writing::ascii_run_printed;
use crate::writing::ascii_written;
use crate::writing::char_printed;
use crate::writing::character_replaced;
use crate::writing::chars_printed;
use crate::writing::combining_base;
use crate::writing::deferred_wrap_settled;
use crate::writing::fitting;
use crate::writing::glyph_drawn;
use crate::writing::glyph_span;
use crate::writing::glyph_written;
use crate::writing::mark_combined;
use crate::writing::moved_to_next_row;
use crate::writing::recomposed;
use crate::writing::room_made;
use crate::writing::translated;
use crate::writing::whole_span;
use crate::writing::wrap_marked;
use crate::writing::wrapped;

verus! {

/// Whether the history `new` is `old` with the rows `fresh` appended, as far
/// as it reaches back.
pub open spec fn fed_with(old: Seq<Line>, new: Seq<Line>, fresh: Seq<Line>) -> bool {
    &&& new.len() <= old.len() + fresh.len()
    &&& new == (old + fresh).skip(old.len() + fresh.len() - new.len())
}

/// Whether the history of `post` is that of `pre` with rows appended, each of
/// which was counted, as far as it reaches back.
pub open spec fn history_fed(pre: TerminalState, post: TerminalState) -> bool {
    exists|fresh: Seq<Line>| #[trigger]
        fed_with(pre.history(), post.history(), fresh) && post.total_lines_scrolled
            == saturating_sum(pre.total_lines_scrolled, fresh.len() as int)
}

/// Rows that arrive in two steps arrive in one.
pub proof fn feeding_goes_on(a: TerminalState, b: TerminalState, c: TerminalState)
    requires
        history_fed(a, b),
        history_fed(b, c),
    ensures
        history_fed(a, c),
{
    let x = choose|fresh: Seq<Line>| #[trigger]
        fed_with(a.history(), b.history(), fresh) && b.total_lines_scrolled == saturating_sum(
            a.total_lines_scrolled,
            fresh.len() as int,
        );
    let y = choose|fresh: Seq<Line>| #[trigger]
        fed_with(b.history(), c.history(), fresh) && c.total_lines_scrolled == saturating_sum(
            b.total_lines_scrolled,
            fresh.len() as int,
        );
    let all = a.history() + (x + y);
    assert(c.history() =~= all.skip(all.len() - c.history().len()));
    assert(fed_with(a.history(), c.history(), x + y));
}

/// Whether row `r` of the screen is as it was, or stamped with the version.
pub open spec fn row_accounted(pre: TerminalState, post: TerminalState, r: int) -> bool {
    post.row_versions@[r] == pre.grid_version || (post.row_versions@[r] == pre.row_versions@[r]
        && post.grid@[r].cells == pre.grid@[r].cells)
}

/// Whether the cursor and the scroll region lie on the screen, each row has a
/// version, and the other screen has as many rows.
pub open spec fn in_shape(state: TerminalState) -> bool {
    &&& state.cursor_row < state.grid@.len()
    &&& state.scroll_region_top <= state.scroll_region_bottom < state.grid@.len()
    &&& state.row_versions@.len() == state.grid@.len()
    &&& state.alt_grid@.len() == state.grid@.len()
    &&& state.max_scrollback >= 1
}

/// Whether the remembered document stays, or is forgotten.
pub open spec fn plan_kept(pre: TerminalState, post: TerminalState) -> bool {
    post.caches.plan == pre.caches.plan || post.caches.plan is None
}

/// What text leaves as it is.
pub open spec fn same_frame(pre: TerminalState, post: TerminalState) -> bool {
    &&& plan_kept(pre, post)
    &&& post.grid_version == pre.grid_version
    &&& post.grid@.len() == pre.grid@.len()
    &&& post.alt_grid == pre.alt_grid
    &&& post.row_versions@.len() == pre.row_versions@.len()
    &&& post.scroll_region_top == pre.scroll_region_top
    &&& post.scroll_region_bottom == pre.scroll_region_bottom
    &&& post.max_scrollback == pre.max_scrollback
    &&& post.parser.mode == pre.parser.mode
    &&& post.parser.pending == pre.parser.pending
    &&& post.cursor_row < post.grid@.len()
}

/// `post` is `pre` after text: rows that changed are stamped, and the history
/// got rows.
#[verifier::opaque]
pub open spec fn text_shown(pre: TerminalState, post: TerminalState) -> bool {
    &&& same_frame(pre, post)
    &&& forall|r: int| 0 <= r < pre.grid@.len() ==> #[trigger] row_accounted(pre, post, r)
    &&& history_fed(pre, post)
}

/// Where the history stays, rows have to be accounted for.
proof fn lemma_in_place(pre: TerminalState, post: TerminalState)
    requires
        in_shape(pre),
        same_frame(pre, post),
        post.scrollback == pre.scrollback,
        post.total_lines_scrolled == pre.total_lines_scrolled,
        forall|r: int| 0 <= r < pre.grid@.len() ==> #[trigger] row_accounted(pre, post, r),
    ensures
        text_shown(pre, post),
        in_shape(post),
{
    reveal(text_shown);
    let none = Seq::<Line>::empty();
    assert(pre.history() =~= (pre.history() + none).skip(0));
    assert(fed_with(pre.history(), post.history(), none));
}

/// Text goes on.
proof fn lemma_text_goes_on(a: TerminalState, b: TerminalState, c: TerminalState)
    requires
        text_shown(a, b),
        text_shown(b, c),
    ensures
        text_shown(a, c),
{
    reveal(text_shown);
    feeding_goes_on(a, b, c);
    assert forall|r: int| 0 <= r < a.grid@.len() implies #[trigger] row_accounted(a, c, r) by {
        assert(row_accounted(a, b, r));
        assert(row_accounted(b, c, r));
    }
}

/// Text keeps the cursor on the screen.
proof fn lemma_shape(pre: TerminalState, post: TerminalState)
    requires
        in_shape(pre),
        text_shown(pre, post),
    ensures
        in_shape(post),
{
    reveal(text_shown);
}

/// A row that moves into the history is appended to it.
proof fn lemma_archived(pre: TerminalState, line: Line, bottom: int, post: TerminalState)
    requires
        in_shape(pre),
        archived_and_counted(pre, line, bottom, post),
    ensures
        text_shown(pre, post),
{
    reveal(text_shown);
    let fresh = seq![line];
    let all = pre.history() + fresh;
    if history_full(pre) {
        assert(post.history() =~= all.skip(1));
    } else {
        assert(post.history() =~= all.skip(0));
    }
    assert(fed_with(pre.history(), post.history(), fresh));
    assert forall|r: int| 0 <= r < pre.grid@.len() implies #[trigger] row_accounted(
        pre,
        post,
        r,
    ) by {}
}

/// Rows of the screen that move are stamped.
proof fn lemma_moved_up(pre: TerminalState, top: int, bottom: int, post: TerminalState)
    requires
        in_shape(pre),
        0 <= top <= bottom < pre.grid@.len(),
        grid_moved_up(pre, top, bottom, post),
    ensures
        text_shown(pre, post),
        in_shape(post),
{
    assert forall|r: int| 0 <= r < pre.grid@.len() implies #[trigger] row_accounted(
        pre,
        post,
        r,
    ) by {}
    lemma_in_place(pre, post);
}

/// Scrolling up stamps the rows and feeds the history.
pub proof fn lemma_scrolled_up(pre: TerminalState, top: int, bottom: int, post: TerminalState)
    requires
        in_shape(pre),
        0 <= top <= bottom < pre.grid@.len(),
        region_scrolled_up(pre, top, bottom, post),
    ensures
        text_shown(pre, post),
{
    if archives_rows(pre, top) {
        let mid = choose|mid: TerminalState|
            {
                &&& #[trigger] grid_moved_up(pre, top, bottom, mid)
                &&& archived_and_counted(mid, pre.grid@[top], bottom, post)
            };
        lemma_moved_up(pre, top, bottom, mid);
        lemma_archived(mid, pre.grid@[top], bottom, post);
        lemma_text_goes_on(pre, mid, post);
    } else {
        let mid = choose|mid: TerminalState|
            {
                &&& #[trigger] row_lost(pre, pre.grid@[top].id, mid)
                &&& grid_moved_up(mid, top, bottom, post)
            };
        assert forall|r: int| 0 <= r < pre.grid@.len() implies #[trigger] row_accounted(
            pre,
            mid,
            r,
        ) by {}
        lemma_in_place(pre, mid);
        lemma_moved_up(mid, top, bottom, post);
        lemma_text_goes_on(pre, mid, post);
    }
}

/// Where neither the screen nor the history changes there is nothing to
/// account for.
proof fn lemma_untouched(pre: TerminalState, post: TerminalState)
    requires
        in_shape(pre),
        same_frame(pre, post),
        post.scrollback == pre.scrollback,
        post.total_lines_scrolled == pre.total_lines_scrolled,
        post.grid == pre.grid,
        post.row_versions == pre.row_versions,
    ensures
        text_shown(pre, post),
        in_shape(post),
{
    assert forall|r: int| 0 <= r < pre.grid@.len() implies #[trigger] row_accounted(
        pre,
        post,
        r,
    ) by {}
    lemma_in_place(pre, post);
}

/// Going to the next row stamps what moves.
proof fn lemma_next_row(pre: TerminalState, post: TerminalState)
    requires
        in_shape(pre),
        moved_to_next_row(pre, post),
    ensures
        text_shown(pre, post),
        in_shape(post),
{
    if pre.cursor_row == pre.scroll_region_bottom {
        lemma_scrolled_up(
            pre,
            pre.scroll_region_top as int,
            pre.scroll_region_bottom as int,
            post,
        );
        lemma_shape(pre, post);
    } else {
        lemma_untouched(pre, post);
    }
}

/// Wrapping marks a row and stamps what moves.
proof fn lemma_wrapped(pre: TerminalState, post: TerminalState)
    requires
        in_shape(pre),
        wrapped(pre, post),
    ensures
        text_shown(pre, post),
        in_shape(post),
{
    let (marked, moved) = choose|marked: TerminalState, moved: TerminalState|
        {
            &&& #[trigger] wrap_marked(pre, marked)
            &&& #[trigger] moved_to_next_row(marked, moved)
            &&& only_active_changed(
                moved,
                noted_wrap(moved, pre.grid@[pre.cursor_row as int].id),
                post,
            )
        };
    assert forall|r: int| 0 <= r < pre.grid@.len() implies #[trigger] row_accounted(
        pre,
        marked,
        r,
    ) by {}
    lemma_in_place(pre, marked);
    lemma_next_row(marked, moved);
    lemma_untouched(moved, post);
    lemma_text_goes_on(pre, marked, moved);
    lemma_text_goes_on(pre, moved, post);
}

/// A deferred wrap is a wrap.
proof fn lemma_settled(pre: TerminalState, post: TerminalState)
    requires
        in_shape(pre),
        deferred_wrap_settled(pre, post),
    ensures
        text_shown(pre, post),
        in_shape(post),
{
    let settled = TerminalState { pending_wrap: false, ..pre };
    lemma_untouched(pre, settled);
    if pre.pending_wrap && pre.autowraps() {
        lemma_wrapped(settled, post);
        lemma_text_goes_on(pre, settled, post);
    }
}

/// Making room may wrap.
proof fn lemma_room(pre: TerminalState, width: int, post: TerminalState)
    requires
        in_shape(pre),
        room_made(pre, width, post),
    ensures
        text_shown(pre, post),
        in_shape(post),
{
    if pre.cursor_col + width > pre.cols() && pre.autowraps() {
        lemma_wrapped(pre, post);
    } else {
        lemma_untouched(pre, post);
    }
}

/// Forgetting outputs touches no row.
proof fn lemma_invalidated(
    pre: TerminalState,
    spans: Seq<RowSpan>,
    post: TerminalState,
)
    requires
        in_shape(pre),
        spans_invalidated(pre, spans, post),
    ensures
        text_shown(pre, post),
        in_shape(post),
        post == (TerminalState { provenance: post.provenance, caches: post.caches, ..pre }),
{
    lemma_untouched(pre, post);
}

/// A glyph stamps the row that it is written on.
proof fn lemma_glyph(
    pre: TerminalState,
    typed: char,
    shown: char,
    width: int,
    post: TerminalState,
)
    requires
        in_shape(pre),
        glyph_written(pre, typed, shown, width, post),
    ensures
        text_shown(pre, post),
        in_shape(post),
{
    let (cleared, drawn) = choose|cleared: TerminalState, drawn: TerminalState|
        {
            &&& #[trigger] spans_invalidated(pre, seq![glyph_span(pre, width)], cleared)
            &&& #[trigger] glyph_drawn(cleared, typed, shown, width, drawn)
            &&& only_active_changed(
                drawn,
                noted_write(
                    drawn,
                    pre.cursor_row as int,
                    pre.grid@[pre.cursor_row as int].id,
                    pre.cursor_col,
                    (pre.cursor_col + width) as usize,
                ),
                post,
            )
        };
    lemma_invalidated(pre, seq![glyph_span(pre, width)], cleared);
    assert forall|r: int| 0 <= r < cleared.grid@.len() implies #[trigger] row_accounted(
        cleared,
        drawn,
        r,
    ) by {}
    lemma_in_place(cleared, drawn);
    lemma_untouched(drawn, post);
    lemma_text_goes_on(pre, cleared, drawn);
    lemma_text_goes_on(pre, drawn, post);
}

/// A combining mark stamps the row of the character that it joins.
proof fn lemma_mark(pre: TerminalState, mark: char, post: TerminalState)
    requires
        in_shape(pre),
        mark_combined(pre, mark, post),
    ensures
        text_shown(pre, post),
        in_shape(post),
{
    if post == pre {
        lemma_untouched(pre, post);
    } else {
        let row = pre.cursor_row as int;
        let col = combining_base(pre)->0;
        let ch = composition(pre.row_cells(row)[col].character, mark)->0;
        let id = pre.grid@[row].id;
        let span = seq![(id, col as usize, (col + 1) as usize)];
        let (cleared, drawn) = choose|cleared: TerminalState, drawn: TerminalState|
            {
                &&& #[trigger] spans_invalidated(pre, span, cleared)
                &&& #[trigger] character_replaced(cleared, col, ch, drawn)
                &&& only_active_changed(
                    drawn,
                    noted_write(drawn, row, id, col as usize, (col + 1) as usize),
                    post,
                )
            };
        assert(recomposed(pre, col, ch, post));
        lemma_invalidated(pre, span, cleared);
        assert forall|r: int| 0 <= r < cleared.grid@.len() implies #[trigger] row_accounted(
            cleared,
            drawn,
            r,
        ) by {}
        lemma_in_place(cleared, drawn);
        lemma_untouched(drawn, post);
        lemma_text_goes_on(pre, cleared, drawn);
        lemma_text_goes_on(pre, drawn, post);
    }
}

/// A character stamps the rows that it changes.
proof fn lemma_char(pre: TerminalState, typed: char, post: TerminalState)
    requires
        in_shape(pre),
        char_printed(pre, typed, post),
    ensures
        text_shown(pre, post),
        in_shape(post),
{
    let shown = translated(pre.active_charset, typed);
    let width = spec_char_width(shown);
    if width == 0 {
        lemma_mark(pre, shown, post);
    } else {
        let (settled, roomy) = choose|settled: TerminalState, roomy: TerminalState|
            {
                &&& #[trigger] deferred_wrap_settled(pre, settled)
                &&& #[trigger] room_made(settled, width, roomy)
                &&& glyph_written(roomy, typed, shown, width, post)
            };
        lemma_settled(pre, settled);
        lemma_room(settled, width, roomy);
        lemma_glyph(roomy, typed, shown, width, post);
        lemma_text_goes_on(pre, settled, roomy);
        lemma_text_goes_on(pre, roomy, post);
    }
}

/// Characters stamp the rows that they change.
pub proof fn lemma_chars(pre: TerminalState, chars: Seq<char>, post: TerminalState)
    requires
        in_shape(pre),
        chars_printed(pre, chars, post),
    ensures
        text_shown(pre, post),
        in_shape(post),
    decreases chars.len(),
{
    if chars.len() == 0 {
        lemma_untouched(pre, post);
    } else {
        let mid = choose|mid: TerminalState|
            {
                &&& #[trigger] char_printed(pre, chars[0], mid)
                &&& chars_printed(mid, chars.drop_first(), post)
            };
        lemma_char(pre, chars[0], mid);
        lemma_chars(mid, chars.drop_first(), post);
        lemma_text_goes_on(pre, mid, post);
    }
}

/// Bytes that fit on a row stamp it.
proof fn lemma_ascii(pre: TerminalState, bytes: Seq<u8>, post: TerminalState)
    requires
        in_shape(pre),
        ascii_written(pre, bytes, post),
    ensures
        text_shown(pre, post),
        in_shape(post),
{
    let row = pre.cursor_row as int;
    let id = pre.grid@[row].id;
    let end = (pre.cursor_col + bytes.len()) as usize;
    let span = whole_span(pre.row_cells(row), pre.cursor_col as int, end as int);
    let spans = seq![(id, span.0 as usize, span.1 as usize)];
    let (cleared, drawn) = choose|cleared: TerminalState, drawn: TerminalState|
        {
            &&& #[trigger] spans_invalidated(pre, spans, cleared)
            &&& #[trigger] ascii_drawn(cleared, bytes, drawn)
            &&& only_active_changed(drawn, noted_write(drawn, row, id, pre.cursor_col, end), post)
        };
    lemma_invalidated(pre, spans, cleared);
    assert forall|r: int| 0 <= r < cleared.grid@.len() implies #[trigger] row_accounted(
        cleared,
        drawn,
        r,
    ) by {}
    lemma_in_place(cleared, drawn);
    lemma_untouched(drawn, post);
    lemma_text_goes_on(pre, cleared, drawn);
    lemma_text_goes_on(pre, drawn, post);
}

/// A run of bytes stamps the rows that it changes.
proof fn lemma_overwritten(pre: TerminalState, bytes: Seq<u8>, post: TerminalState)
    requires
        in_shape(pre),
        ascii_run_overwritten(pre, bytes, post),
    ensures
        text_shown(pre, post),
        in_shape(post),
    decreases bytes.len(),
{
    if bytes.len() == 0 {
        lemma_untouched(pre, post);
    } else {
        let (settled, written) = choose|settled: TerminalState, written: TerminalState|
            {
                &&& #[trigger] deferred_wrap_settled(pre, settled)
                &&& #[trigger] ascii_written(
                    settled,
                    bytes.take(fitting(settled, bytes)),
                    written,
                )
                &&& ascii_run_overwritten(written, bytes.skip(fitting(settled, bytes)), post)
            };
        let n = fitting(settled, bytes);
        lemma_settled(pre, settled);
        lemma_ascii(settled, bytes.take(n), written);
        assert(1 <= n <= bytes.len());
        lemma_overwritten(written, bytes.skip(n), post);
        lemma_text_goes_on(pre, settled, written);
        lemma_text_goes_on(pre, written, post);
    }
}

/// Moving the cursor within its row changes no row.
proof fn lemma_cursor(pre: TerminalState, col: int, post: TerminalState)
    requires
        in_shape(pre),
        cursor_moved(pre, pre.cursor_row as int, col, false, post),
    ensures
        text_shown(pre, post),
        in_shape(post),
        post.cursor_row == pre.cursor_row,
{
    let mid = choose|mid: TerminalState|
        {
            &&& #[trigger] cursor_at(pre, pre.cursor_row as int, col, mid)
            &&& only_active_changed(mid, noted_reposition(mid, false), post)
        };
    lemma_untouched(pre, mid);
    lemma_untouched(mid, post);
    lemma_text_goes_on(pre, mid, post);
}

/// A control character stamps the rows that move.
pub proof fn lemma_control(pre: TerminalState, byte: u8, post: TerminalState)
    requires
        in_shape(pre),
        control_executed(pre, byte, post),
    ensures
        text_shown(pre, post),
        in_shape(post),
{
    if byte == 0x08 {
        lemma_cursor(pre, col_left(pre, 1), post);
    } else if byte == 0x09 {
        let (col, mid) = choose|col: int, mid: TerminalState|
            {
                &&& #[trigger] cursor_moved(pre, pre.cursor_row as int, col, false, mid)
                &&& tabbed(mid, 0, post)
            };
        assert(tabbed(pre, 1, post));
        lemma_cursor(pre, col, mid);
    } else if byte == 0x0a || byte == 0x0b || byte == 0x0c {
        let settled = TerminalState { pending_wrap: false, ..pre };
        let moved = choose|moved: TerminalState|
            {
                &&& #[trigger] moved_to_next_row(settled, moved)
                &&& only_active_changed(
                    moved,
                    noted_advance(
                        moved,
                        pre.grid@[pre.cursor_row as int].id,
                        pre.cursor_anchor(),
                        moved.cursor_anchor(),
                    ),
                    post,
                )
            };
        assert(line_fed(pre, post));
        lemma_untouched(pre, settled);
        lemma_next_row(settled, moved);
        lemma_untouched(moved, post);
        lemma_text_goes_on(pre, settled, moved);
        lemma_text_goes_on(pre, moved, post);
    } else if byte == 0x0d {
        lemma_cursor(pre, 0, post);
    } else {
        lemma_untouched(pre, post);
    }
}

/// Plain input other than the escape character stamps the rows that change.
pub proof fn lemma_ground(
    pre: TerminalState,
    data: Seq<u8>,
    i: int,
    post: TerminalState,
    next: int,
)
    requires
        in_shape(pre),
        0 <= i < data.len(),
        data[i] != 0x1b,
        ground_step(pre, data, i, post, next),
    ensures
        text_shown(pre, post),
        in_shape(post),
{
    let byte = data[i];
    if is_printable(byte) && pre.active_charset == Charset::Ascii {
        let bytes = data.subrange(i, next);
        assert(ascii_run_printed(pre, bytes, post));
        if pre.insert_mode {
            lemma_chars(pre, bytes.map_values(|b: u8| b as char), post);
        } else {
            lemma_overwritten(pre, bytes, post);
        }
    } else if is_printable(byte) {
        lemma_char(pre, byte as char, post);
    } else if byte <= 0x7f {
        lemma_control(pre, byte, post);
    } else {
        match utf8_length(byte) {
            Some(length) => {
                if char_printed(pre, '\u{fffd}', post) {
                    lemma_char(pre, '\u{fffd}', post);
                } else if i + length > data.len() {
                    lemma_untouched(pre, post);
                } else {
                    lemma_char(
                        pre,
                        decoded_char(data.subrange(i, i + length)),
                        post,
                    );
                }
            },
            None => {
                lemma_char(pre, '\u{fffd}', post);
            },
        }
    }
}

/// Input without escape characters stamps the rows that change.
proof fn lemma_run(
    pre: TerminalState,
    data: Seq<u8>,
    i: int,
    now: ClockReading,
    post: TerminalState,
)
    requires
        in_shape(pre),
        pre.parser.mode == ParserMode::Ground,
        0 <= i,
        is_text(data),
        input_run(pre, data, i, now, post),
    ensures
        text_shown(pre, post),
        in_shape(post),
    decreases data.len() - i,
{
    if i >= data.len() {
        lemma_untouched(pre, post);
    } else {
        let (mid, next) = choose|mid: TerminalState, next: int|
            {
                &&& i < next <= data.len()
                &&& #[trigger] input_step(pre, data, i, now, mid, next)
                &&& input_run(mid, data, next, now, post)
            };
        assert(ground_step(pre, data, i, mid, next)) by {
            reveal(input_step);
        }
        lemma_ground(pre, data, i, mid, next);
        assert(mid.parser.mode == ParserMode::Ground) by {
            reveal(text_shown);
        }
        lemma_run(mid, data, next, now, post);
        lemma_text_goes_on(pre, mid, post);
    }
}

/// Whether input is plain text: it has no escape characters. Line breaks and
/// characters of several bytes are text.
pub open spec fn is_text(data: Seq<u8>) -> bool {
    forall|k: int| 0 <= k < data.len() ==> #[trigger] data[k] != 0x1b
}

/// Text does nothing to the history but append rows to it and let the oldest
/// go.
pub proof fn text_feeds_the_history(
    pre: TerminalState,
    data: Seq<u8>,
    now: ClockReading,
    post: TerminalState,
)
    requires
        pre.core_wf(),
        pre.parser.mode == ParserMode::Ground,
        is_text(pre.parser.utf8@ + data),
        input_processed(pre, data, now, post),
    ensures
        history_fed(pre, post),
        post.grid@.len() == pre.grid@.len(),
{
    let (begun, done) = choose|begun: TerminalState, done: TerminalState|
        {
            &&& #[trigger] batch_begun(pre, begun)
            &&& #[trigger] input_run(begun, pre.parser.utf8@ + data, 0, now, done)
            &&& batch_ended(done, post)
        };
    assert(in_shape(begun));
    lemma_run(begun, pre.parser.utf8@ + data, 0, now, done);
    reveal(text_shown);
    let fresh = choose|fresh: Seq<Line>| #[trigger]
        fed_with(begun.history(), done.history(), fresh) && done.total_lines_scrolled
            == saturating_sum(begun.total_lines_scrolled, fresh.len() as int);
    assert(fed_with(pre.history(), post.history(), fresh));
}

} // verus!
