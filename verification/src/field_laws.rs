//! How texts are taken apart and numbers read from them.

use vstd::prelude::*;

use crate::fields::first_position;
use crate::fields::hex_digit;
use crate::fields::is_space;
use crate::fields::number_value;
use crate::fields::split_fields;
use crate::fields::split_first;
use crate::fields::trimmed;
use crate::fields::trimmed_end;
use crate::fields::trimmed_start;
use crate::osc133::displayable;
use crate::print_laws::spelled;

verus! {

/// The first position of a character is the first one that holds it.
pub proof fn first_positions_are_first(text: Seq<char>, c: char)
    ensures
        match first_position(text, c) {
            Some(p) => 0 <= p < text.len() && text[p] == c && forall|i: int|
                0 <= i < p ==> #[trigger] text[i] != c,
            None => forall|i: int| 0 <= i < text.len() ==> #[trigger] text[i] != c,
        },
    decreases text.len(),
{
    if text.len() > 0 {
        let head = text.drop_last();
        first_positions_are_first(head, c);
        assert forall|i: int| 0 <= i < head.len() implies #[trigger] text[i] == head[i] by {}
    }
}

/// A text is split at its first separator.
pub proof fn texts_are_split_at_the_first_separator(
    head: Seq<char>,
    separator: char,
    tail: Seq<char>,
)
    requires
        forall|i: int| 0 <= i < head.len() ==> #[trigger] head[i] != separator,
    ensures
        split_first(head + seq![separator] + tail, separator) == Some((head, tail)),
{
    let text = head + seq![separator] + tail;
    first_positions_are_first(text, separator);
    assert(text[head.len() as int] == separator);
    assert forall|i: int| 0 <= i < head.len() implies #[trigger] text[i] == head[i] by {}
    let p = first_position(text, separator)->0;
    if p < head.len() {
        assert(head[p] == text[p]);
    }
    assert(p == head.len());
    assert(text.take(p) =~= head);
    assert(text.skip(p + 1) =~= tail);
}

/// A text without separators is one field.
pub proof fn texts_without_separators_are_one_field(text: Seq<char>, separator: char)
    requires
        forall|i: int| 0 <= i < text.len() ==> #[trigger] text[i] != separator,
    ensures
        split_fields(text, separator) == seq![text],
    decreases text.len(),
{
    if text.len() > 0 {
        let head = text.drop_last();
        assert forall|i: int| 0 <= i < head.len() implies #[trigger] head[i] != separator by {
            assert(head[i] == text[i]);
        }
        texts_without_separators_are_one_field(head, separator);
        assert(head.push(text.last()) =~= text);
        assert(split_fields(text, separator) =~= seq![text]);
    } else {
        assert(text =~= Seq::<char>::empty());
    }
}

/// The fields of two texts with a separator between them are those of the first
/// and then those of the second.
pub proof fn fields_stand_between_separators(a: Seq<char>, separator: char, b: Seq<char>)
    ensures
        split_fields(a + seq![separator] + b, separator) == split_fields(a, separator)
            + split_fields(b, separator),
        split_fields(b, separator).len() > 0,
    decreases b.len(),
{
    let text = a + seq![separator] + b;
    if b.len() == 0 {
        assert(text.drop_last() =~= a);
        assert(text.last() == separator);
        assert(split_fields(b, separator) =~= seq![Seq::<char>::empty()]);
        assert(split_fields(text, separator) =~= split_fields(a, separator) + split_fields(
            b,
            separator,
        ));
    } else {
        let rest = b.drop_last();
        fields_stand_between_separators(a, separator, rest);
        assert(text.drop_last() =~= a + seq![separator] + rest);
        assert(text.last() == b.last());
        assert(split_fields(text, separator) =~= split_fields(a, separator) + split_fields(
            b,
            separator,
        ));
    }
}

/// The value of decimal digits is the number they spell.
pub proof fn numbers_are_read_in_decimal(digits: Seq<char>)
    requires
        forall|i: int| 0 <= i < digits.len() ==> '0' <= #[trigger] digits[i] <= '9',
    ensures
        number_value(digits) == spelled(digits),
    decreases digits.len(),
{
    if digits.len() > 0 {
        let head = digits.drop_last();
        assert forall|i: int| 0 <= i < head.len() implies '0' <= #[trigger] head[i] <= '9' by {
            assert(head[i] == digits[i]);
        }
        numbers_are_read_in_decimal(head);
        assert('0' <= digits[digits.len() - 1] <= '9');
    }
}

/// The value of a hexadecimal digit is its place among the sixteen, whatever its
/// case; other characters are none.
pub proof fn hexadecimal_digits_have_values(c: char, value: Option<u8>)
    requires
        call_ensures(hex_digit, (c,), value),
    ensures
        '0' <= c <= '9' ==> value == Some((c as int - '0' as int) as u8),
        'a' <= c <= 'f' ==> value == Some((c as int - 'a' as int + 10) as u8),
        'A' <= c <= 'F' ==> value == Some((c as int - 'A' as int + 10) as u8),
        !('0' <= c <= '9') && !('a' <= c <= 'f') && !('A' <= c <= 'F') ==> value is None,
{
}

/// Trimming takes away white space alone, and all of it at both ends.
pub proof fn trimming_takes_white_space(text: Seq<char>) -> (from: int)
    ensures
        ({
            let kept = trimmed(text);
            &&& 0 <= from
            &&& from + kept.len() <= text.len()
            &&& kept == text.subrange(from, from + kept.len())
            &&& forall|i: int|
                0 <= i < text.len() && (i < from || i >= from + kept.len()) ==> is_space(
                    #[trigger] text[i],
                )
            &&& kept.len() > 0 ==> !is_space(kept[0]) && !is_space(kept.last())
        }),
{
    let from = lemma_trimmed_start(text);
    let start = trimmed_start(text);
    lemma_trimmed_end(start);
    let kept = trimmed(text);
    assert(kept =~= text.subrange(from, from + kept.len()));
    assert forall|i: int|
        0 <= i < text.len() && (i < from || i >= from + kept.len()) implies is_space(
        #[trigger] text[i],
    ) by {
        if i >= from {
            assert(start[i - from] == text[i]);
        }
    }
    if kept.len() > 0 {
        assert(kept[0] == start[0]);
    }
    from
}

/// Trimming the start.
proof fn lemma_trimmed_start(text: Seq<char>) -> (from: int)
    ensures
        0 <= from <= text.len(),
        trimmed_start(text) == text.skip(from),
        forall|i: int| 0 <= i < from ==> is_space(#[trigger] text[i]),
        from < text.len() ==> !is_space(text[from]),
    decreases text.len(),
{
    if text.len() > 0 && is_space(text[0]) {
        let rest = text.drop_first();
        let from = lemma_trimmed_start(rest);
        assert(rest.skip(from) =~= text.skip(from + 1));
        assert forall|i: int| 0 <= i < from + 1 implies is_space(#[trigger] text[i]) by {
            if i > 0 {
                assert(rest[i - 1] == text[i]);
            }
        }
        if from + 1 < text.len() {
            assert(rest[from] == text[from + 1]);
        }
        from + 1
    } else {
        assert(text.skip(0) =~= text);
        0
    }
}

/// Trimming the end.
proof fn lemma_trimmed_end(text: Seq<char>)
    ensures
        ({
            let kept = trimmed_end(text);
            &&& kept.len() <= text.len()
            &&& kept == text.take(kept.len() as int)
            &&& forall|i: int| kept.len() <= i < text.len() ==> is_space(#[trigger] text[i])
            &&& kept.len() > 0 ==> !is_space(kept.last())
        }),
    decreases text.len(),
{
    if text.len() > 0 && is_space(text.last()) {
        let head = text.drop_last();
        lemma_trimmed_end(head);
        let kept = trimmed_end(text);
        assert(head.take(kept.len() as int) =~= text.take(kept.len() as int));
        assert forall|i: int| kept.len() <= i < text.len() implies is_space(#[trigger] text[i]) by {
            if i < head.len() {
                assert(head[i] == text[i]);
            }
        }
    } else {
        assert(text.take(text.len() as int) =~= text);
    }
}

/// Control characters, marks that reverse the direction of text and characters
/// that cannot be seen may not be shown; letters, digits and signs of ASCII,
/// Latin, Greek, Cyrillic and the ideographs may.
pub proof fn only_what_can_be_seen_is_shown(c: char, yes: bool)
    requires
        call_ensures(displayable, (c,), yes),
    ensures
        ' ' <= c <= '~' ==> yes,
        '\u{a0}' <= c <= '\u{ac}' || '\u{ae}' <= c <= '\u{34e}' || '\u{370}' <= c <= '\u{5ff}'
            ==> yes,
        '\u{3041}' <= c <= '\u{3163}' || '\u{4e00}' <= c <= '\u{9fff}' || '\u{ac00}' <= c
            <= '\u{d7a3}' || '\u{1f300}' <= c <= '\u{1f9ff}' ==> yes,
        c < ' ' || '\u{7f}' <= c <= '\u{9f}' ==> !yes,
        c == '\u{ad}' || c == '\u{34f}' || c == '\u{61c}' ==> !yes,
        '\u{200b}' <= c <= '\u{200f}' || '\u{2028}' <= c <= '\u{202e}' || '\u{2060}' <= c
            <= '\u{206f}' ==> !yes,
        c == '\u{3164}' || c == '\u{ffa0}' || '\u{115f}' <= c <= '\u{1160}' || '\u{17b4}' <= c
            <= '\u{17b5}' || '\u{180b}' <= c <= '\u{180f}' ==> !yes,
        '\u{fe00}' <= c <= '\u{fe0f}' || c == '\u{feff}' || '\u{fff0}' <= c <= '\u{fffb}'
            || '\u{e0000}' <= c <= '\u{e0fff}' ==> !yes,
{
}

} // verus!
