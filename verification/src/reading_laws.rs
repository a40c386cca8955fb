//! What is read of the output of commands, and how much of it.

use vstd::prelude::*;

use crate::bounded_text::bounded;
use crate::bounded_text::kept_head;
use crate::bounded_text::kept_tail;
use crate::bounded_text::prefix_fit;
use crate::bounded_text::suffix_fit;
use crate::bounded_text::utf8_len;
use crate::bounded_text::utf8_width;
use crate::commands::index_of_id;
use crate::grid::Line;
use crate::navigation::command_text;
use crate::navigation::logical_row;
use crate::state::TerminalState;

verus! {

/// How many rows of `from..to` end in a line break.
pub open spec fn line_breaks(lines: Seq<Line>, from: int, to: int) -> int
    decreases to - from,
{
    if from >= to {
        0
    } else {
        line_breaks(lines, from, to - 1) + if lines[to - 1].wrapped {
            0int
        } else {
            1
        }
    }
}

/// Line breaks of rows that stand one behind the other add up.
proof fn lemma_breaks(lines: Seq<Line>, from: int, to: int)
    requires
        from < to,
    ensures
        line_breaks(lines, from, to) == line_breaks(lines, from + 1, to) + if lines[from].wrapped {
            0int
        } else {
            1
        },
    decreases to - from,
{
    if from + 1 < to {
        lemma_breaks(lines, from, to - 1);
    } else {
        assert(line_breaks(lines, from, from) == 0);
        assert(line_breaks(lines, to, to) == 0);
    }
}

/// The line of an output with a number, counted from one, begins where that many
/// line breaks, less one, are before it. Rows that go on in the next are one line.
/// There is none where the output has fewer lines.
pub proof fn lines_of_outputs_are_counted(lines: Seq<Line>, row: int, last: int, number: int)
    requires
        0 <= row <= last < lines.len(),
        number >= 1,
    ensures
        match logical_row(lines, row, last, number) {
            Some(r) => row <= r <= last && line_breaks(lines, row, r) == number - 1 && (r == row
                || !lines[r - 1].wrapped),
            None => line_breaks(lines, row, last) < number - 1,
        },
    decreases last - row,
{
    if number > 1 {
        let left = if row < last && !lines[row].wrapped {
            number - 1
        } else {
            number
        };
        if row < last {
            lines_of_outputs_are_counted(lines, row + 1, last, left);
            match logical_row(lines, row + 1, last, left) {
                Some(r) => {
                    lemma_breaks(lines, row, r);
                },
                None => {
                    lemma_breaks(lines, row, last);
                },
            }
        } else {
            assert(logical_row(lines, row + 1, last, left) is None);
        }
    }
}

/// The longest beginning that fits.
proof fn lemma_prefix(text: Seq<char>, budget: int)
    requires
        budget >= 0,
    ensures
        ({
            let n = prefix_fit(text, budget);
            &&& 0 <= n <= text.len()
            &&& utf8_len(text.take(n)) <= budget
            &&& n < text.len() ==> utf8_len(text.take(n)) + utf8_width(text[n]) > budget
        }),
    decreases text.len(),
{
    let n = prefix_fit(text, budget);
    if text.len() == 0 || utf8_width(text[0]) > budget {
        assert(text.take(0) =~= Seq::<char>::empty());
        assert(utf8_len(text.take(0)) == 0);
    } else {
        let rest = text.drop_first();
        lemma_prefix(rest, budget - utf8_width(text[0]));
        assert(text.take(n) =~= seq![text[0]] + rest.take(n - 1));
        crate::bounded_text::lemma_utf8_len_add(seq![text[0]], rest.take(n - 1));
        assert(seq![text[0]].drop_last() =~= Seq::<char>::empty());
        reveal_with_fuel(utf8_len, 2);
        assert(utf8_len(seq![text[0]]) == utf8_width(text[0]));
        if n < text.len() {
            assert(rest[n - 1] == text[n]);
        }
    }
}

/// The longest end that fits.
proof fn lemma_suffix(text: Seq<char>, budget: int) -> (k: int)
    requires
        budget >= 0,
    ensures
        0 <= k <= text.len(),
        suffix_fit(text, budget) == text.skip(k),
        utf8_len(text.skip(k)) <= budget,
        k > 0 ==> utf8_len(text.skip(k)) + utf8_width(text[k - 1]) > budget,
    decreases text.len(),
{
    if text.len() == 0 || utf8_width(text.last()) > budget {
        assert(text.skip(text.len() as int) =~= Seq::<char>::empty());
        assert(utf8_len(Seq::<char>::empty()) == 0);
        text.len() as int
    } else {
        let head = text.drop_last();
        let k = lemma_suffix(head, budget - utf8_width(text.last()));
        let whole = text.skip(k);
        assert(whole =~= head.skip(k).push(text.last()));
        crate::bounded_text::lemma_utf8_len_add(head.skip(k), seq![text.last()]);
        assert(head.skip(k) + seq![text.last()] =~= whole);
        assert(seq![text.last()].drop_last() =~= Seq::<char>::empty());
        reveal_with_fuel(utf8_len, 2);
        assert(utf8_len(seq![text.last()]) == utf8_width(text.last()));
        k
    }
}

/// A text that fits is kept whole. Of one that does not, the beginning and the end
/// are kept, with a note between them, each as long as it can be: the beginning in
/// half of the room, the end in what is left of it.
pub proof fn long_texts_keep_both_ends(text: Seq<char>, max_bytes: int) -> (cut: (int, int))
    requires
        max_bytes >= 28,
    ensures
        utf8_len(text) <= max_bytes ==> bounded(text, max_bytes) == text,
        utf8_len(text) > max_bytes ==> {
            let head = text.take(cut.0);
            let tail = text.skip(cut.0).skip(cut.1);
            let room = max_bytes - 26;
            &&& 0 <= cut.0 <= text.len()
            &&& 0 <= cut.1 <= text.len() - cut.0
            &&& bounded(text, max_bytes) == head + "\n… output truncated …\n"@ + tail
            &&& utf8_len(head) <= room / 2
            &&& cut.0 < text.len() ==> utf8_len(head) + utf8_width(text[cut.0]) > room / 2
            &&& utf8_len(head) + utf8_len(tail) <= room
            &&& cut.1 > 0 ==> utf8_len(head) + utf8_len(tail) + utf8_width(text[cut.0 + cut.1 - 1])
                > room
        },
{
    if utf8_len(text) > max_bytes {
        let room = max_bytes - 26;
        let n = prefix_fit(text, room / 2);
        lemma_prefix(text, room / 2);
        let head = kept_head(text, max_bytes);
        assert(head == text.take(n));
        let rest = text.skip(n);
        let k = lemma_suffix(rest, room - utf8_len(head));
        if k > 0 {
            assert(rest[k - 1] == text[n + k - 1]);
        }
        assert(kept_tail(text, max_bytes) == rest.skip(k));
        (n, k)
    } else {
        (0, 0)
    }
}

/// The output of a command is what was captured when it ended, where it was: whole if
/// it fits, and otherwise cut and marked so. A command that is not known has none.
pub proof fn captured_outputs_are_read(state: TerminalState, id: Seq<char>, i: int, max_bytes: int)
    requires
        max_bytes >= 0,
    ensures
        index_of_id(state.log@.records, id) is None ==> command_text(state, id, max_bytes) is None,
        index_of_id(state.log@.records, id) == Some(i) && state.log@.records[i].captured_output is Some
            ==> ({
            let captured = state.log@.records[i].captured_output->0;
            let read = command_text(state, id, max_bytes);
            &&& read is Some
            &&& read->0.total_bytes == captured.total_bytes
            &&& utf8_len(captured.text) <= max_bytes ==> read == Some(captured)
            &&& utf8_len(captured.text) > max_bytes ==> read->0.truncated && read->0.text
                == bounded(captured.text, max_bytes)
        }),
{
}

} // verus!
