//! What plain input puts on the screen, and how numbers are read and written.

use vstd::prelude::*;

use crate::cell::TerminalCell;
use crate::commands::decimal_text;
use crate::control_laws::only_cursor_moved;
use crate::csi::csi_model;
use crate::csi::csi_params;
use crate::csi::open_params;
use crate::csi::CsiParam;
use crate::cursor::cursor_at;
use crate::cursor::cursor_moved;
use crate::grid::Line;
use crate::output::noted_reposition;
use crate::output::noted_write;
use crate::output::only_active_changed;
use crate::parser::control_executed;
use crate::parser::decoded_char;
use crate::scrolling::spans_invalidated;
use crate::shift_laws::narrow_row;
use crate::state::TerminalState;
use crate::writing::ascii_drawn;
use crate::writing::ascii_run_printed;
use crate::writing::ascii_written;
use crate::writing::char_printed;
use crate::writing::deferred_wrap_settled;
use crate::writing::glyph_drawn;
use crate::writing::glyph_span;
use crate::writing::glyph_written;
use crate::writing::room_made;

verus! {

/// Whether a cell shows `ch` in the colours, with the attributes and with the
/// link that are chosen.
pub open spec fn shows_char(state: TerminalState, cell: TerminalCell, ch: char) -> bool {
    &&& cell.character == ch
    &&& cell.foreground == state.current_fg
    &&& cell.background == state.current_bg
    &&& cell.flags.attrs == state.current_flags.attrs
    &&& cell.flags.underline_style == state.current_flags.underline_style
    &&& cell.hyperlink_id == state.current_hyperlink
}

/// Writing a glyph changes the cursor row, the cursor and what is known of
/// outputs.
proof fn lemma_written(
    pre: TerminalState,
    typed: char,
    shown: char,
    width: int,
    post: TerminalState,
)
    requires
        glyph_written(pre, typed, shown, width, post),
        pre.grid.wf(),
        pre.cursor_row < pre.grid@.len(),
    ensures
        post.grid.cols == pre.grid.cols,
        post.grid@.len() == pre.grid@.len(),
        forall|r: int| 0 <= r < pre.grid@.len() && r != pre.cursor_row ==> #[trigger] post.grid@[r]
            == pre.grid@[r],
        post.grid@[pre.cursor_row as int] == (Line {
            cells: crate::writing::glyph_placed(
                pre.row_cells(pre.cursor_row as int),
                pre.cursor_col as int,
                width,
                pre.insert_mode,
                pre.glyph(shown, width),
                pre.glyph_rest(),
                pre.blank(),
            ),
            ..pre.grid@[pre.cursor_row as int]
        }),
        post.cursor_row == pre.cursor_row,
        post.cursor_col == if pre.cursor_col + width < pre.cols() {
            pre.cursor_col + width
        } else if pre.cols() > width {
            pre.cols() - width
        } else {
            0
        },
        post.pending_wrap == (pre.pending_wrap || pre.cursor_col + width >= pre.cols()
            && pre.modes.has(7)),
        post.scrollback == pre.scrollback,
        post.last_printed_char == Some(typed),
{
    let (cleared, drawn) = choose|cleared: TerminalState, drawn: TerminalState|
        {
            &&& #[trigger] spans_invalidated(pre, seq![glyph_span(pre, width)], cleared)
            &&& #[trigger] glyph_drawn(cleared, typed, shown, width, drawn)
            &&& only_active_changed(
                drawn,
                noted_write(
                    drawn,
                    pre.cursor_row as int,
                    pre.grid@[pre.cursor_row as int].id,
                    pre.cursor_col,
                    (pre.cursor_col + width) as usize,
                ),
                post,
            )
        };
    assert(glyph_drawn(cleared, typed, shown, width, drawn));
}

/// A printed character stands at the cursor in the chosen colours and with the
/// chosen attributes. One of two columns has its right half behind it. The
/// cursor goes behind it; in the last column it stays, and where wrapping is on
/// the next character goes to the next row. With insert mode on, the cells from
/// the cursor on move to the right first. Nothing else changes on rows of
/// single-width characters.
pub proof fn printed_characters_stand_at_the_cursor(
    pre: TerminalState,
    typed: char,
    shown: char,
    width: usize,
    post: TerminalState,
    c: int,
)
    requires
        pre.core_wf(),
        call_ensures(TerminalState::translate_char, (&pre, typed), shown),
        call_ensures(crate::cell::char_width, (shown,), width),
        width > 0,
        !pre.pending_wrap,
        pre.cursor_col + width <= pre.cols(),
        narrow_row(pre, pre.cursor_row as int),
        char_printed(pre, typed, post),
        0 <= c < pre.cols(),
    ensures
        ({
            let row = pre.cursor_row as int;
            let col = pre.cursor_col as int;
            let now = post.grid@[row].cells[c];
            &&& c == col ==> shows_char(pre, now, shown) && now.flags.spec_wide() == (width == 2)
                && !now.flags.spec_continuation()
            &&& width == 2 && c == col + 1 ==> now.flags.spec_continuation()
            &&& c < col ==> now == pre.grid@[row].cells[c]
            &&& !pre.insert_mode && c >= col + width ==> now == pre.grid@[row].cells[c]
            &&& pre.insert_mode && c >= col + width ==> now == pre.grid@[row].cells[c - width]
            &&& forall|r: int|
                0 <= r < pre.rows() && r != row ==> #[trigger] post.grid@[r] == pre.grid@[r]
            &&& post.cursor_row == pre.cursor_row
            &&& col + width < pre.cols() ==> post.cursor_col == col + width && !post.pending_wrap
            &&& col + width == pre.cols() ==> post.cursor_col == col && post.pending_wrap
                == pre.modes.has(7)
            &&& post.scrollback == pre.scrollback
            &&& post.last_printed_char == Some(typed)
        }),
{
    let w = width as int;
    let (settled, roomy) = choose|settled: TerminalState, roomy: TerminalState|
        {
            &&& #[trigger] deferred_wrap_settled(pre, settled)
            &&& #[trigger] room_made(settled, w, roomy)
            &&& glyph_written(roomy, typed, shown, w, post)
        };
    assert(deferred_wrap_settled(pre, settled));
    assert(room_made(settled, w, roomy));
    assert(roomy == pre);
    lemma_written(pre, typed, shown, w, post);
    let cells = pre.row_cells(pre.cursor_row as int);
    assert(cells.len() == pre.cols());
}

/// A run of printable bytes that fits on the cursor row stands there byte by
/// byte, and the cursor goes behind it. Nothing else changes on rows of
/// single-width characters.
pub proof fn printed_runs_stand_at_the_cursor(
    pre: TerminalState,
    bytes: Seq<u8>,
    post: TerminalState,
    c: int,
)
    requires
        pre.core_wf(),
        !pre.insert_mode,
        !pre.pending_wrap,
        bytes.len() > 0,
        pre.cursor_col + bytes.len() <= pre.cols(),
        narrow_row(pre, pre.cursor_row as int),
        ascii_run_printed(pre, bytes, post),
        0 <= c < pre.cols(),
    ensures
        ({
            let row = pre.cursor_row as int;
            let col = pre.cursor_col as int;
            let n = bytes.len() as int;
            let now = post.grid@[row].cells[c];
            &&& col <= c < col + n ==> shows_char(pre, now, bytes[c - col] as char)
                && !now.flags.spec_wide() && !now.flags.spec_continuation()
            &&& c < col || c >= col + n ==> now == pre.grid@[row].cells[c]
            &&& forall|r: int|
                0 <= r < pre.rows() && r != row ==> #[trigger] post.grid@[r] == pre.grid@[r]
            &&& post.cursor_row == pre.cursor_row
            &&& col + n < pre.cols() ==> post.cursor_col == col + n && !post.pending_wrap
            &&& col + n == pre.cols() ==> post.cursor_col == pre.cols() - 1 && post.pending_wrap
                == pre.modes.has(7)
            &&& post.scrollback == pre.scrollback
        }),
{
    let n = bytes.len() as int;
    let (settled, written) = choose|settled: TerminalState, written: TerminalState|
        {
            &&& #[trigger] deferred_wrap_settled(pre, settled)
            &&& #[trigger] ascii_written(
                settled,
                bytes.take(crate::writing::fitting(settled, bytes)),
                written,
            )
            &&& crate::writing::ascii_run_overwritten(
                written,
                bytes.skip(crate::writing::fitting(settled, bytes)),
                post,
            )
        };
    assert(deferred_wrap_settled(pre, settled));
    assert(settled == pre);
    assert(bytes.take(n) =~= bytes);
    assert(bytes.skip(n) =~= Seq::<u8>::empty());
    assert(post == written);
    let row = pre.cursor_row as int;
    let id = pre.grid@[row].id;
    let end = (pre.cursor_col + bytes.len()) as usize;
    let span = crate::writing::whole_span(pre.row_cells(row), pre.cursor_col as int, end as int);
    let (cleared, drawn) = choose|cleared: TerminalState, drawn: TerminalState|
        {
            &&& #[trigger] spans_invalidated(
                pre,
                seq![(id, span.0 as usize, span.1 as usize)],
                cleared,
            )
            &&& #[trigger] ascii_drawn(cleared, bytes, drawn)
            &&& only_active_changed(drawn, noted_write(drawn, row, id, pre.cursor_col, end), post)
        };
    assert(ascii_drawn(cleared, bytes, drawn));
    assert(pre.row_cells(row).len() == pre.cols());
}

/// A backspace moves the cursor one column to the left, a carriage return to the
/// first column, a tab to the next tab stop or the last column; none of them
/// changes a row.
pub proof fn control_characters_move_the_cursor(
    pre: TerminalState,
    byte: u8,
    post: TerminalState,
)
    requires
        pre.core_wf(),
        byte == 0x08 || byte == 0x09 || byte == 0x0d,
        control_executed(pre, byte, post),
    ensures
        only_cursor_moved(pre, post),
        post.cursor_row == pre.cursor_row,
        byte == 0x08 ==> post.cursor_col == if pre.cursor_col > 0 {
            pre.cursor_col - 1
        } else {
            0
        },
        byte == 0x0d ==> post.cursor_col == 0,
        byte == 0x09 ==> {
            &&& forall|c: int|
                pre.cursor_col < c < post.cursor_col && c < pre.tab_stops@.len()
                    ==> !#[trigger] pre.tab_stops@[c]
            &&& post.cursor_col > pre.cursor_col || post.cursor_col == pre.cols() - 1
            &&& post.cursor_col == pre.cols() - 1 || (post.cursor_col < pre.tab_stops@.len()
                && pre.tab_stops@[post.cursor_col as int])
        },
{
    let col = if byte == 0x08 {
        crate::control::col_left(pre, 1)
    } else if byte == 0x0d {
        0
    } else {
        let (col, mid) = choose|col: int, mid: TerminalState|
            {
                &&& crate::cursor::tabs_to(
                    pre.tab_stops@,
                    pre.cols(),
                    pre.cursor_col as int,
                    col,
                )
                &&& #[trigger] cursor_moved(pre, pre.cursor_row as int, col, false, mid)
                &&& crate::control::tabbed(mid, 0, post)
            };
        assert(crate::control::tabbed(pre, 1, post));
        col
    };
    let mid = choose|mid: TerminalState|
        {
            &&& #[trigger] cursor_at(pre, pre.cursor_row as int, col, mid)
            &&& only_active_changed(mid, noted_reposition(mid, false), post)
        };
    assert(cursor_moved(pre, pre.cursor_row as int, col, false, post));
    assert(cursor_at(pre, pre.cursor_row as int, col, mid));
    if byte == 0x09 {
        assert forall|c: int|
            pre.cursor_col < c < post.cursor_col && c
                < pre.tab_stops@.len() implies !#[trigger] pre.tab_stops@[c] by {
            assert(!crate::cursor::is_stop(pre.tab_stops@, c));
        }
    }
}

/// The number that decimal digits spell.
pub open spec fn spelled(digits: Seq<char>) -> int
    decreases digits.len(),
{
    if digits.len() == 0 {
        0
    } else {
        10 * spelled(digits.drop_last()) + (digits.last() as int - '0' as int)
    }
}

/// A number is written in decimal digits, without a zero in front.
pub proof fn numbers_are_written_in_decimal(n: nat)
    ensures
        spelled(decimal_text(n)) == n,
        decimal_text(n).len() > 0,
        forall|i: int| 0 <= i < decimal_text(n).len() ==> '0' <= #[trigger] decimal_text(n)[i] <= '9',
        n > 0 ==> decimal_text(n)[0] != '0',
    decreases n,
{
    if n < 10 {
        assert(decimal_text(n).drop_last() =~= Seq::<char>::empty());
        assert(decimal_text(n).last() == (48 + n) as char);
        reveal_with_fuel(spelled, 2);
    } else {
        numbers_are_written_in_decimal(n / 10);
        let head = decimal_text(n / 10);
        assert(decimal_text(n).drop_last() =~= head);
        assert(decimal_text(n).last() == (48 + n % 10) as char);
        assert(decimal_text(n)[0] == head[0]);
    }
}

/// Digits that are read as a parameter give the number they spell, as far as
/// sixteen bits go.
pub proof fn parameters_are_read_in_decimal(bytes: Seq<u8>)
    requires
        bytes.len() > 0,
        forall|i: int| 0 <= i < bytes.len() ==> 0x30 <= #[trigger] bytes[i] <= 0x39,
    ensures
        csi_params(bytes).len() == 1,
        !csi_params(bytes)[0].colon,
        ({
            let value = spelled(Seq::new(bytes.len(), |i: int| bytes[i] as char));
            csi_params(bytes)[0].number == if value > 65535 {
                65535
            } else {
                value
            }
        }),
{
    lemma_open_digits(bytes);
}

/// Digits that are read so far.
proof fn lemma_open_digits(bytes: Seq<u8>)
    requires
        forall|i: int| 0 <= i < bytes.len() ==> 0x30 <= #[trigger] bytes[i] <= 0x39,
    ensures
        open_params(bytes).len() == 1,
        !open_params(bytes)[0].colon,
        ({
            let value = spelled(Seq::new(bytes.len(), |i: int| bytes[i] as char));
            &&& value >= 0
            &&& open_params(bytes)[0].number == if value > 65535 {
                65535
            } else {
                value
            }
        }),
    decreases bytes.len(),
{
    let text = Seq::new(bytes.len(), |i: int| bytes[i] as char);
    if bytes.len() > 0 {
        let head = bytes.drop_last();
        assert forall|i: int| 0 <= i < head.len() implies 0x30 <= #[trigger] head[i] <= 0x39 by {
            assert(head[i] == bytes[i]);
        }
        lemma_open_digits(head);
        assert(text.drop_last() =~= Seq::new(head.len(), |i: int| head[i] as char));
        assert(text.last() == bytes.last() as char);
        assert(0x30 <= bytes[bytes.len() - 1] <= 0x39);
    }
}

/// Parameters on both sides of a semicolon or a colon are read by themselves; a
/// colon marks the one behind it.
pub proof fn parameters_are_separated(a: Seq<u8>, separator: u8, b: Seq<u8>)
    requires
        separator == 0x3a || separator == 0x3b,
    ensures
        ({
            let all = open_params(a + seq![separator] + b);
            let left = open_params(a);
            let right = open_params(b);
            &&& all.len() == left.len() + right.len()
            &&& forall|i: int| 0 <= i < left.len() ==> #[trigger] all[i] == left[i]
            &&& forall|i: int|
                0 <= i < right.len() ==> (#[trigger] all[left.len() + i]).number == right[i].number
            &&& forall|i: int|
                0 < i < right.len() ==> (#[trigger] all[left.len() + i]).colon == right[i].colon
            &&& all[left.len() as int].colon == (separator == 0x3a)
        }),
        open_params(a).len() > 0,
        open_params(b).len() > 0,
    decreases b.len(),
{
    let whole = a + seq![separator] + b;
    let left = open_params(a);
    lemma_open_nonempty(a);
    lemma_open_nonempty(b);
    if b.len() == 0 {
        assert(whole.drop_last() =~= a);
        assert(whole.last() == separator);
        assert(open_params(b) == seq![CsiParam { number: 0, colon: false }]);
    } else {
        let rest = b.drop_last();
        assert(whole.drop_last() =~= a + seq![separator] + rest);
        assert(whole.last() == b.last());
        parameters_are_separated(a, separator, rest);
        lemma_open_nonempty(rest);
    }
}

/// There is always a parameter that may still go on.
proof fn lemma_open_nonempty(bytes: Seq<u8>)
    ensures
        open_params(bytes).len() > 0,
    decreases bytes.len(),
{
    if bytes.len() > 0 {
        lemma_open_nonempty(bytes.drop_last());
    }
}

/// A control sequence is made of a private marker, parameters, an intermediate
/// character and its last one.
pub proof fn control_sequences_have_parts(marker: u8, params: Seq<u8>, between: u8, last: u8)
    requires
        '<' as u8 <= marker <= '?' as u8,
        ' ' as u8 <= between <= '/' as u8,
        forall|i: int| 0 <= i < params.len() ==> 0x30 <= #[trigger] params[i] <= 0x3b,
    ensures
        ({
            let model = csi_model(seq![marker] + params + seq![between], last);
            &&& model.marker == Some(marker)
            &&& model.intermediate == Some(between)
            &&& model.params == csi_params(params)
            &&& model.last == last
        }),
        ({
            let model = csi_model(seq![marker] + params, last);
            &&& model.marker == Some(marker)
            &&& model.intermediate is None
            &&& model.params == csi_params(params)
            &&& model.last == last
        }),
        ({
            let model = csi_model(params + seq![between], last);
            &&& model.marker is None
            &&& model.intermediate == Some(between)
            &&& model.params == csi_params(params)
            &&& model.last == last
        }),
        ({
            let model = csi_model(params, last);
            &&& model.marker is None
            &&& model.intermediate is None
            &&& model.params == csi_params(params)
            &&& model.last == last
        }),
{
    let n = params.len() as int;
    let full = seq![marker] + params + seq![between];
    assert(full.subrange(1, n + 1) =~= params);
    assert(full.last() == between && full[0] == marker);
    let marked = seq![marker] + params;
    assert(marked.subrange(1, n + 1) =~= params);
    assert(marked[0] == marker);
    if n > 0 {
        assert(marked.last() == params[n - 1]);
    }
    let plain = params + seq![between];
    assert(plain.subrange(0, n) =~= params);
    assert(plain.last() == between);
    assert(plain[0] == if n > 0 {
        params[0]
    } else {
        between
    });
    assert(params.subrange(0, n) =~= params);
}

/// The bytes of a character decode to it.
pub proof fn characters_are_decoded(c: char)
    ensures
        decoded_char(vstd::utf8::encode_utf8(seq![c])) == c,
{
    vstd::utf8::encode_utf8_valid_utf8(seq![c]);
    vstd::utf8::encode_utf8_decode_utf8(seq![c]);
}

/// A combining mark joins the character before the cursor where the two have one form:
/// that cell shows the form with everything else as it was, and the cursor stays. Where
/// they have none, nothing changes.
pub proof fn combining_marks_join_the_character_before(
    pre: TerminalState,
    mark: char,
    post: TerminalState,
    c: int,
)
    requires
        pre.core_wf(),
        !pre.pending_wrap,
        pre.cursor_col > 0,
        narrow_row(pre, pre.cursor_row as int),
        crate::writing::mark_combined(pre, mark, post),
        0 <= c < pre.cols(),
    ensures
        ({
            let row = pre.cursor_row as int;
            let col = pre.cursor_col - 1;
            let base = pre.grid@[row].cells[col];
            let joined = crate::text::composition(base.character, mark);
            let blank = base.character == ' ' || base.character == '\0';
            &&& blank || joined is None ==> post == pre
            &&& !blank && joined is Some && c == col ==> post.grid@[row].cells[c]
                == (TerminalCell { character: joined->0, ..base })
            &&& c != col ==> post.grid@[row].cells[c] == pre.grid@[row].cells[c]
            &&& post.cursor_row == pre.cursor_row && post.cursor_col == pre.cursor_col
            &&& post.scrollback == pre.scrollback
        }),
{
    let row = pre.cursor_row as int;
    let col = pre.cursor_col - 1;
    let cells = pre.row_cells(row);
    assert(cells.len() == pre.cols());
    assert(!cells[col].flags.spec_continuation());
    let base = cells[col].character;
    assert(crate::writing::combining_base(pre) == Some(col));
    if base != ' ' && base != '\0' && crate::text::composition(base, mark) is Some {
        lemma_recomposed(pre, col, crate::text::composition(base, mark)->0, post, c);
    }
}

/// A composed character takes the place of the one it was made from.
proof fn lemma_recomposed(pre: TerminalState, col: int, ch: char, post: TerminalState, c: int)
    requires
        0 <= pre.cursor_row < pre.grid@.len(),
        0 <= col < pre.row_cells(pre.cursor_row as int).len(),
        0 <= c < pre.row_cells(pre.cursor_row as int).len(),
        crate::writing::recomposed(pre, col, ch, post),
    ensures
        ({
            let cells = pre.row_cells(pre.cursor_row as int);
            &&& post.row_cells(pre.cursor_row as int)[c] == if c == col {
                TerminalCell { character: ch, ..cells[col] }
            } else {
                cells[c]
            }
            &&& post.cursor_row == pre.cursor_row && post.cursor_col == pre.cursor_col
            &&& post.scrollback == pre.scrollback
        }),
{
    let row = pre.cursor_row as int;
    let id = pre.grid@[row].id;
    let (cleared, drawn) = choose|cleared: TerminalState, drawn: TerminalState|
        {
            &&& #[trigger] spans_invalidated(
                pre,
                seq![(id, col as usize, (col + 1) as usize)],
                cleared,
            )
            &&& #[trigger] crate::writing::character_replaced(cleared, col, ch, drawn)
            &&& only_active_changed(
                drawn,
                noted_write(drawn, row, id, col as usize, (col + 1) as usize),
                post,
            )
        };
    assert(crate::writing::character_replaced(cleared, col, ch, drawn));
    assert(cleared.grid == pre.grid && cleared.cursor_row == pre.cursor_row);
    assert(post.grid == drawn.grid);
}

/// A run of printable bytes is printed whole: it reaches from its first byte to the
/// first that is not printable.
pub proof fn printable_runs_are_printed_whole(
    pre: TerminalState,
    data: Seq<u8>,
    i: int,
    post: TerminalState,
    next: int,
)
    requires
        0 <= i < data.len(),
        0x20 <= data[i] <= 0x7e,
        pre.active_charset == crate::state::Charset::Ascii,
        crate::parser::ground_step(pre, data, i, post, next),
    ensures
        i < next <= data.len(),
        forall|k: int| i <= k < next ==> 0x20 <= #[trigger] data[k] <= 0x7e,
        next < data.len() ==> !(0x20 <= data[next] <= 0x7e),
        ascii_run_printed(pre, data.subrange(i, next), post),
{
    lemma_run_end(data, i);
}

/// Where a run ends.
proof fn lemma_run_end(data: Seq<u8>, i: int)
    requires
        0 <= i <= data.len(),
    ensures
        ({
            let end = crate::parser::run_end(data, i);
            &&& i <= end <= data.len()
            &&& forall|k: int| i <= k < end ==> 0x20 <= #[trigger] data[k] <= 0x7e
            &&& end < data.len() ==> !(0x20 <= data[end] <= 0x7e)
        }),
    decreases data.len() - i,
{
    if i < data.len() && 0x20 <= data[i] <= 0x7e {
        lemma_run_end(data, i + 1);
    }
}

} // verus!
