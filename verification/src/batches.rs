//! Input may come in batches that are cut inside a sequence.

use vstd::prelude::*;

use crate::cell::spec_char_width;
use crate::lifecycle::ClockReading;
use crate::output::noted_wrap;
use crate::output::only_active_changed;
use crate::parser::all_continue;
use crate::parser::escape_performed;
use crate::parser::escape_step;
use crate::parser::ground_step;
use crate::parser::input_run;
use crate::parser::input_step;
use crate::parser::is_printable;
use crate::parser::is_short_escape;
use crate::parser::mode_begun;
use crate::parser::parsing;
use crate::parser::run_end;
use crate::parser::utf8_consumed;
use crate::parser::utf8_length;
use crate::scrolling::archived_and_counted;
use crate::scrolling::archives_rows;
use crate::scrolling::grid_moved_up;
use crate::scrolling::region_scrolled_up;
use crate::scrolling::row_lost;
use crate::state::Charset;
use crate::state::ParserMode;
use crate::state::TerminalState;
use crate::writing::ascii_run_overwritten;
use crate::writing::ascii_run_printed;
use crate::writing::ascii_written;
use crate::writing::char_printed;
use crate::writing::chars_printed;
use crate::writing::deferred_wrap_settled;
use crate::writing::fitting;
use crate::writing::glyph_written;
use crate::writing::moved_to_next_row;
use crate::writing::room_made;
use crate::writing::translated;
use crate::writing::wrap_marked;
use crate::writing::wrapped;

verus! {

/// Scrolling does not touch the parser.
proof fn lemma_scrolled(pre: TerminalState, top: int, bottom: int, post: TerminalState)
    requires
        region_scrolled_up(pre, top, bottom, post),
    ensures
        post.parser == pre.parser,
{
    if bottom >= pre.rows() || top > bottom {
    } else if archives_rows(pre, top) {
        let mid = choose|mid: TerminalState|
            {
                &&& #[trigger] grid_moved_up(pre, top, bottom, mid)
                &&& archived_and_counted(mid, pre.grid@[top], bottom, post)
            };
        assert(grid_moved_up(pre, top, bottom, mid));
    } else {
        let mid = choose|mid: TerminalState|
            {
                &&& #[trigger] row_lost(pre, pre.grid@[top].id, mid)
                &&& grid_moved_up(mid, top, bottom, post)
            };
        assert(row_lost(pre, pre.grid@[top].id, mid));
    }
}

/// Wrapping does not touch the parser.
proof fn lemma_wrapped(pre: TerminalState, post: TerminalState)
    requires
        wrapped(pre, post),
    ensures
        post.parser == pre.parser,
{
    let (marked, moved) = choose|marked: TerminalState, moved: TerminalState|
        {
            &&& #[trigger] wrap_marked(pre, marked)
            &&& #[trigger] moved_to_next_row(marked, moved)
            &&& only_active_changed(
                moved,
                noted_wrap(moved, pre.grid@[pre.cursor_row as int].id),
                post,
            )
        };
    assert(wrap_marked(pre, marked));
    assert(moved_to_next_row(marked, moved));
    if marked.cursor_row == marked.scroll_region_bottom {
        lemma_scrolled(
            marked,
            marked.scroll_region_top as int,
            marked.scroll_region_bottom as int,
            moved,
        );
    }
}

/// Carrying out a deferred wrap does not touch the parser.
proof fn lemma_settled(pre: TerminalState, post: TerminalState)
    requires
        deferred_wrap_settled(pre, post),
    ensures
        post.parser == pre.parser,
{
    if pre.pending_wrap && pre.autowraps() {
        lemma_wrapped(TerminalState { pending_wrap: false, ..pre }, post);
    }
}

/// Printing a character does not touch the parser.
proof fn lemma_char_printed(pre: TerminalState, typed: char, post: TerminalState)
    requires
        char_printed(pre, typed, post),
    ensures
        post.parser == pre.parser,
{
    let shown = translated(pre.active_charset, typed);
    let width = spec_char_width(shown);
    if width != 0 {
        let (settled, roomy) = choose|settled: TerminalState, roomy: TerminalState|
            {
                &&& #[trigger] deferred_wrap_settled(pre, settled)
                &&& #[trigger] room_made(settled, width, roomy)
                &&& glyph_written(roomy, typed, shown, width, post)
            };
        lemma_settled(pre, settled);
        assert(room_made(settled, width, roomy));
        if settled.cursor_col + width > settled.cols() && settled.autowraps() {
            lemma_wrapped(settled, roomy);
        }
        assert(glyph_written(roomy, typed, shown, width, post));
    }
}

/// Printing a run of ASCII bytes does not touch the parser.
proof fn lemma_run_overwritten(pre: TerminalState, bytes: Seq<u8>, post: TerminalState)
    requires
        ascii_run_overwritten(pre, bytes, post),
    ensures
        post.parser == pre.parser,
    decreases bytes.len(),
{
    if bytes.len() > 0 {
        let (settled, written) = choose|settled: TerminalState, written: TerminalState|
            {
                &&& #[trigger] deferred_wrap_settled(pre, settled)
                &&& #[trigger] ascii_written(
                    settled,
                    bytes.take(fitting(settled, bytes)),
                    written,
                )
                &&& ascii_run_overwritten(written, bytes.skip(fitting(settled, bytes)), post)
            };
        lemma_settled(pre, settled);
        assert(ascii_written(settled, bytes.take(fitting(settled, bytes)), written));
        lemma_run_overwritten(written, bytes.skip(fitting(settled, bytes)), post);
    }
}

/// Printing characters does not touch the parser.
proof fn lemma_chars_printed(pre: TerminalState, chars: Seq<char>, post: TerminalState)
    requires
        chars_printed(pre, chars, post),
    ensures
        post.parser == pre.parser,
    decreases chars.len(),
{
    if chars.len() > 0 {
        let mid = choose|mid: TerminalState|
            {
                &&& #[trigger] char_printed(pre, chars[0], mid)
                &&& chars_printed(mid, chars.drop_first(), post)
            };
        lemma_char_printed(pre, chars[0], mid);
        lemma_chars_printed(mid, chars.drop_first(), post);
    }
}

/// Printing a run of ASCII bytes does not touch the parser.
proof fn lemma_run_printed(pre: TerminalState, bytes: Seq<u8>, post: TerminalState)
    requires
        ascii_run_printed(pre, bytes, post),
    ensures
        post.parser == pre.parser,
{
    if pre.insert_mode {
        lemma_chars_printed(pre, bytes.map_values(|b: u8| b as char), post);
    } else {
        lemma_run_overwritten(pre, bytes, post);
    }
}

/// A run that ends before the end of the input, or before a byte that it
/// cannot hold, ends there whatever comes later.
proof fn lemma_run_end(a: Seq<u8>, b: Seq<u8>, i: int)
    requires
        0 <= i <= a.len(),
        run_end(a, i) < a.len() || b.len() == 0 || !is_printable(b[0]),
    ensures
        run_end(a + b, i) == run_end(a, i),
        i <= run_end(a, i) <= a.len(),
    decreases a.len() - i,
{
    let all = a + b;
    if i < a.len() {
        assert(all[i] == a[i]);
        if is_printable(a[i]) {
            lemma_run_end(a, b, i + 1);
        }
    } else if b.len() > 0 {
        assert(all[i] == b[0]);
    }
}

/// A run of printable bytes holds nothing else.
proof fn lemma_run_is_printable(a: Seq<u8>, i: int)
    requires
        0 <= i < a.len(),
        is_printable(a[i]),
    ensures
        i < run_end(a, i) <= a.len(),
        is_printable(a[run_end(a, i) - 1]),
    decreases a.len() - i,
{
    if i + 1 < a.len() && is_printable(a[i + 1]) {
        lemma_run_is_printable(a, i + 1);
    } else {
        assert(run_end(a, i + 1) == i + 1);
    }
}

/// Bytes that continue a character continue it in longer input too.
proof fn lemma_all_continue(a: Seq<u8>, b: Seq<u8>, from: int, to: int)
    requires
        0 <= from,
        to <= a.len(),
    ensures
        all_continue(a + b, from, to) == all_continue(a, from, to),
{
    let all = a + b;
    assert forall|k: int| from <= k < to implies all[k] == a[k] by {}
}

/// Whether the input can be cut behind `a`: not inside a run of printable
/// bytes.
pub open spec fn can_be_cut(a: Seq<u8>, b: Seq<u8>, at: TerminalState) -> bool {
    ||| a.len() == 0
    ||| b.len() == 0
    ||| !is_printable(a.last())
    ||| !is_printable(b[0])
    ||| at.parser.mode != ParserMode::Ground
}

/// A step of plain input does not depend on what comes behind it.
proof fn lemma_ground_step(
    pre: TerminalState,
    a: Seq<u8>,
    b: Seq<u8>,
    i: int,
    post: TerminalState,
    next: int,
)
    requires
        pre.parser.mode == ParserMode::Ground,
        0 <= i < a.len(),
        i < next <= a.len(),
        ground_step(pre, a, i, post, next),
        next < a.len() || (post.parser.utf8@.len() == 0 && can_be_cut(a, b, post)),
    ensures
        ground_step(pre, a + b, i, post, next),
{
    let all = a + b;
    let byte = a[i];
    assert(all[i] == byte);
    if is_printable(byte) && pre.active_charset != Charset::Ascii {
    } else if is_printable(byte) {
        lemma_run_printed(pre, a.subrange(i, next), post);
        lemma_run_is_printable(a, i);
        lemma_run_end(a, b, i);
        assert(all.subrange(i, next) =~= a.subrange(i, next));
    } else if byte > 0x7f {
        match utf8_length(byte) {
            Some(length) => {
                let end = if i + length <= a.len() {
                    i + length
                } else {
                    a.len() as int
                };
                let end_all = if i + length <= all.len() {
                    i + length
                } else {
                    all.len() as int
                };
                lemma_all_continue(a, b, i + 1, end);
                if !all_continue(a, i + 1, end) {
                    assert(!all_continue(all, i + 1, end_all));
                } else if i + length > a.len() {
                    assert(a.skip(i).len() > 0);
                } else {
                    assert(all.subrange(i, i + length) =~= a.subrange(i, i + length));
                }
            },
            None => {},
        }
    }
}

/// A step of input does not depend on what comes behind it.
proof fn lemma_step(
    pre: TerminalState,
    a: Seq<u8>,
    b: Seq<u8>,
    i: int,
    now: ClockReading,
    post: TerminalState,
    next: int,
)
    requires
        0 <= i < a.len(),
        i < next <= a.len(),
        input_step(pre, a, i, now, post, next),
        next < a.len() || (post.parser.utf8@.len() == 0 && can_be_cut(a, b, post)),
    ensures
        input_step(pre, a + b, i, now, post, next),
{
    reveal(input_step);
    let all = a + b;
    assert(all[i] == a[i]);
    match pre.parser.mode {
        ParserMode::Ground => {
            lemma_ground_step(pre, a, b, i, post, next);
        },
        ParserMode::Escape => {
            let byte = a[i];
            if mode_begun(byte) is None {
                let mid = choose|mid: TerminalState|
                    {
                        &&& #[trigger] parsing(pre, ParserMode::Ground, Seq::empty(), mid)
                        &&& if is_short_escape(byte) {
                            next == i + 1 && escape_performed(mid, byte, post)
                        } else {
                            ground_step(mid, a, i, post, next)
                        }
                    };
                assert(parsing(pre, ParserMode::Ground, Seq::empty(), mid));
                if !is_short_escape(byte) {
                    lemma_ground_step(mid, a, b, i, post, next);
                }
                assert(escape_step(pre, all, i, post, next));
            }
        },
        _ => {},
    }
}

/// A step of input does not depend on what comes before it.
proof fn lemma_step_moved(
    pre: TerminalState,
    a: Seq<u8>,
    b: Seq<u8>,
    i: int,
    now: ClockReading,
    post: TerminalState,
    next: int,
)
    requires
        0 <= i < b.len(),
        input_step(pre, b, i, now, post, next),
    ensures
        input_step(pre, a + b, a.len() + i, now, post, a.len() + next),
{
    reveal(input_step);
    let all = a + b;
    let n = a.len() as int;
    assert(all[n + i] == b[i]);
    match pre.parser.mode {
        ParserMode::Ground => {
            lemma_ground_moved(pre, a, b, i, post, next);
        },
        ParserMode::Escape => {
            let byte = b[i];
            if mode_begun(byte) is None {
                let mid = choose|mid: TerminalState|
                    {
                        &&& #[trigger] parsing(pre, ParserMode::Ground, Seq::empty(), mid)
                        &&& if is_short_escape(byte) {
                            next == i + 1 && escape_performed(mid, byte, post)
                        } else {
                            ground_step(mid, b, i, post, next)
                        }
                    };
                assert(parsing(pre, ParserMode::Ground, Seq::empty(), mid));
                if !is_short_escape(byte) {
                    lemma_ground_moved(mid, a, b, i, post, next);
                }
                assert(escape_step(pre, all, n + i, post, n + next));
            }
        },
        _ => {},
    }
}

/// Runs of printable bytes end in the same place, counted from where they
/// begin.
proof fn lemma_run_end_moved(a: Seq<u8>, b: Seq<u8>, i: int)
    requires
        0 <= i <= b.len(),
    ensures
        run_end(a + b, a.len() + i) == a.len() + run_end(b, i),
        i <= run_end(b, i) <= b.len(),
    decreases b.len() - i,
{
    if i < b.len() {
        assert((a + b)[a.len() + i] == b[i]);
        if is_printable(b[i]) {
            lemma_run_end_moved(a, b, i + 1);
        }
    }
}

/// A step of plain input does not depend on what comes before it.
proof fn lemma_ground_moved(
    pre: TerminalState,
    a: Seq<u8>,
    b: Seq<u8>,
    i: int,
    post: TerminalState,
    next: int,
)
    requires
        0 <= i < b.len(),
        ground_step(pre, b, i, post, next),
    ensures
        ground_step(pre, a + b, a.len() + i, post, a.len() + next),
{
    let all = a + b;
    let n = a.len() as int;
    let byte = b[i];
    assert(all[n + i] == byte);
    if is_printable(byte) {
        lemma_run_end_moved(a, b, i);
        if pre.active_charset == Charset::Ascii {
            assert(all.subrange(n + i, n + next) =~= b.subrange(i, next));
        }
    } else if byte > 0x7f {
        match utf8_length(byte) {
            Some(length) => {
                let end = if i + length <= b.len() {
                    i + length
                } else {
                    b.len() as int
                };
                assert(all_continue(all, n + i + 1, n + end) == all_continue(b, i + 1, end)) by {
                    assert forall|k: int| i + 1 <= k < end implies all[n + k] == b[k] by {}
                    if all_continue(all, n + i + 1, n + end) {
                        assert forall|k: int| i + 1 <= k < end implies #[trigger] b[k] == all[n
                            + k] by {}
                    }
                    if all_continue(b, i + 1, end) {
                        assert forall|k: int| n + i + 1 <= k < n + end implies #[trigger] all[k]
                            == b[k - n] by {}
                    }
                }
                assert(all.skip(n + i) =~= b.skip(i));
                if i + length <= b.len() {
                    assert(all.subrange(n + i, n + i + length) =~= b.subrange(i, i + length));
                }
            },
            None => {},
        }
    }
}

/// A run of input does not depend on what comes before it.
proof fn lemma_input_moved(
    pre: TerminalState,
    a: Seq<u8>,
    b: Seq<u8>,
    i: int,
    now: ClockReading,
    post: TerminalState,
)
    requires
        0 <= i <= b.len(),
        input_run(pre, b, i, now, post),
    ensures
        input_run(pre, a + b, a.len() + i, now, post),
    decreases b.len() - i,
{
    if i < b.len() {
        let (mid, next) = choose|mid: TerminalState, next: int|
            {
                &&& i < next <= b.len()
                &&& #[trigger] input_step(pre, b, i, now, mid, next)
                &&& input_run(mid, b, next, now, post)
            };
        lemma_step_moved(pre, a, b, i, now, mid, next);
        lemma_input_moved(mid, a, b, next, now, post);
        assert(input_step(pre, a + b, a.len() + i, now, mid, a.len() + next));
    }
}

/// Input that is cut comes to the same as input in one piece, from a place in
/// its first part on.
proof fn lemma_cut_from(
    pre: TerminalState,
    a: Seq<u8>,
    b: Seq<u8>,
    i: int,
    now: ClockReading,
    mid: TerminalState,
    post: TerminalState,
)
    requires
        0 <= i <= a.len(),
        input_run(pre, a, i, now, mid),
        mid.parser.utf8@.len() == 0,
        can_be_cut(a, b, mid),
        input_run(mid, b, 0, now, post),
    ensures
        input_run(pre, a + b, i, now, post),
    decreases a.len() - i,
{
    if i < a.len() {
        let (step, next) = choose|step: TerminalState, next: int|
            {
                &&& i < next <= a.len()
                &&& #[trigger] input_step(pre, a, i, now, step, next)
                &&& input_run(step, a, next, now, mid)
            };
        lemma_step(pre, a, b, i, now, step, next);
        lemma_cut_from(step, a, b, next, now, mid, post);
        assert(input_step(pre, a + b, i, now, step, next));
    } else {
        lemma_input_moved(mid, a, b, 0, now, post);
    }
}

/// A sequence that is cut between two batches is completed by the second one:
/// input taken in as two parts comes to the same as input in one piece,
/// wherever no character and no run of printable bytes is cut.
pub proof fn input_can_be_cut(
    pre: TerminalState,
    a: Seq<u8>,
    b: Seq<u8>,
    now: ClockReading,
    mid: TerminalState,
    post: TerminalState,
)
    requires
        input_run(pre, a, 0, now, mid),
        mid.parser.utf8@.len() == 0,
        can_be_cut(a, b, mid),
        input_run(mid, b, 0, now, post),
    ensures
        input_run(pre, a + b, 0, now, post),
{
    lemma_cut_from(pre, a, b, 0, now, mid, post);
}

/// A character that is cut between two batches is completed by the second one:
/// the bytes that wait, followed by the next batch, come to the same as the
/// character in one piece.
pub proof fn cut_characters_are_completed(
    pre: TerminalState,
    a: Seq<u8>,
    b: Seq<u8>,
    i: int,
    length: int,
    mid: TerminalState,
    begun: TerminalState,
    post: TerminalState,
    next: int,
)
    requires
        0 <= i < a.len(),
        all_continue(a, i + 1, a.len() as int),
        a.len() < i + length,
        utf8_consumed(pre, a, i, length, mid, a.len() as int),
        ground_step(begun, mid.parser.utf8@ + b, 0, post, next),
    ensures
        ground_step(begun, a + b, i, post, i + next),
        mid == (TerminalState { parser: mid.parser, ..pre }),
{
    let waiting = mid.parser.utf8@;
    let before = a.take(i);
    assert(waiting == a.skip(i));
    assert(before + (waiting + b) =~= a + b);
    lemma_ground_moved(begun, before, waiting + b, 0, post, next);
}

} // verus!
