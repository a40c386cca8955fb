//! Splitting, trimming and reading text fields.

use vstd::prelude::*;

use crate::text::chars_of;

verus! {

/// The texts behind a list of character vectors.
pub open spec fn texts(list: Seq<Vec<char>>) -> Seq<Seq<char>> {
    Seq::new(list.len(), |i: int| list[i]@)
}

/// The fields of `text` between separators; there is always at least one.
pub open spec fn split_fields(text: Seq<char>, separator: char) -> Seq<Seq<char>>
    decreases text.len(),
{
    if text.len() == 0 {
        seq![Seq::empty()]
    } else {
        let before = split_fields(text.drop_last(), separator);
        if text.last() == separator {
            before.push(Seq::empty())
        } else {
            before.update(before.len() - 1, before.last().push(text.last()))
        }
    }
}

/// Splits a text at each separator.
pub fn split(text: &Vec<char>, separator: char) -> (fields: Vec<Vec<char>>)
    ensures
        texts(fields@) == split_fields(text@, separator),
        fields@.len() > 0,
{
    let mut fields: Vec<Vec<char>> = Vec::new();
    let mut current: Vec<char> = Vec::new();
    let mut i: usize = 0;
    assert(texts(fields@).push(current@) =~~= split_fields(text@.take(0), separator));
    while i < text.len()
        invariant
            i <= text@.len(),
            texts(fields@).push(current@) == split_fields(text@.take(i as int), separator),
        decreases text.len() - i,
    {
        assert(text@.take(i + 1).drop_last() =~= text@.take(i as int));
        let c = text[i];
        let ghost before = texts(fields@);
        let ghost open = current@;
        if c == separator {
            fields.push(current);
            current = Vec::new();
            assert(texts(fields@) =~= before.push(open));
            assert(texts(fields@).push(current@) =~= split_fields(text@.take(i + 1), separator));
        } else {
            current.push(c);
            assert(texts(fields@).push(current@) =~= before.push(open).update(
                before.len() as int,
                open.push(c),
            ));
        }
        i = i + 1;
    }
    let ghost before = texts(fields@);
    let ghost open = current@;
    fields.push(current);
    assert(texts(fields@) =~= before.push(open));
    assert(text@.take(i as int) =~= text@);
    fields
}

/// Position of the first `c` in `text`.
pub open spec fn first_position(text: Seq<char>, c: char) -> Option<int>
    decreases text.len(),
{
    if text.len() == 0 {
        None
    } else if first_position(text.drop_last(), c) is Some {
        first_position(text.drop_last(), c)
    } else if text.last() == c {
        Some(text.len() - 1)
    } else {
        None
    }
}

/// Once found, the first position stays as more text is considered.
proof fn lemma_first_position_extends(text: Seq<char>, n: int, c: char)
    requires
        0 <= n <= text.len(),
        first_position(text.take(n), c) is Some,
    ensures
        first_position(text, c) == first_position(text.take(n), c),
    decreases text.len() - n,
{
    if n == text.len() {
        assert(text.take(n) =~= text);
    } else {
        assert(text.take(n + 1).drop_last() =~= text.take(n));
        lemma_first_position_extends(text, n + 1, c);
    }
}

/// Position of the first `c` in `text`.
pub fn find_char(text: &Vec<char>, c: char) -> (position: Option<usize>)
    ensures
        match (first_position(text@, c), position) {
            (Some(p), Some(q)) => p == q && q < text@.len(),
            (None, None) => true,
            _ => false,
        },
{
    let mut i: usize = 0;
    while i < text.len()
        invariant
            i <= text@.len(),
            first_position(text@.take(i as int), c) is None,
        decreases text.len() - i,
    {
        assert(text@.take(i + 1).drop_last() =~= text@.take(i as int));
        if text[i] == c {
            proof {
                lemma_first_position_extends(text@, i + 1, c);
            }
            return Some(i);
        }
        i = i + 1;
    }
    assert(text@.take(i as int) =~= text@);
    None
}

/// A part of a text.
pub fn part(text: &Vec<char>, from: usize, to: usize) -> (out: Vec<char>)
    requires
        from <= to <= text@.len(),
    ensures
        out@ == text@.subrange(from as int, to as int),
{
    let mut out: Vec<char> = Vec::new();
    let mut i: usize = from;
    while i < to
        invariant
            from <= i <= to <= text@.len(),
            out@ == text@.subrange(from as int, i as int),
        decreases to - i,
    {
        out.push(text[i]);
        i = i + 1;
        assert(out@ =~= text@.subrange(from as int, i as int));
    }
    out
}

/// `text` around its first separator.
pub open spec fn split_first(text: Seq<char>, separator: char) -> Option<(Seq<char>, Seq<char>)> {
    match first_position(text, separator) {
        Some(p) => Some((text.take(p), text.skip(p + 1))),
        None => None,
    }
}

/// Splits a text at its first separator.
pub fn split_once(text: &Vec<char>, separator: char) -> (parts: Option<(Vec<char>, Vec<char>)>)
    ensures
        match (split_first(text@, separator), parts) {
            (Some((a, b)), Some((x, y))) => x@ == a && y@ == b,
            (None, None) => true,
            _ => false,
        },
{
    match find_char(text, separator) {
        Some(p) => {
            let len: usize = text.len();
            let head = part(text, 0, p);
            let tail = part(text, p + 1, len);
            assert(head@ =~= text@.take(p as int));
            assert(tail@ =~= text@.skip(p + 1));
            Some((head, tail))
        },
        None => None,
    }
}

/// Whether a text equals a literal.
pub fn equals(text: &Vec<char>, literal: &str) -> (same: bool)
    ensures
        same == (text@ == literal@),
{
    let other = chars_of(literal);
    same_chars(text, &other)
}

/// Whether two texts are equal.
pub fn same_chars(a: &Vec<char>, b: &Vec<char>) -> (same: bool)
    ensures
        same == (a@ == b@),
{
    if a.len() != b.len() {
        return false;
    }
    let mut i: usize = 0;
    while i < a.len()
        invariant
            i <= a@.len(),
            a@.len() == b@.len(),
            forall|k: int| 0 <= k < i ==> a@[k] == b@[k],
        decreases a.len() - i,
    {
        if a[i] != b[i] {
            return false;
        }
        i = i + 1;
    }
    assert(a@ =~= b@);
    true
}

/// Characters with the Unicode property White_Space.
pub open spec fn is_space(c: char) -> bool {
    let v = c as u32;
    ||| 0x9 <= v <= 0xd
    ||| v == 0x20
    ||| v == 0x85
    ||| v == 0xa0
    ||| v == 0x1680
    ||| 0x2000 <= v <= 0x200a
    ||| v == 0x2028
    ||| v == 0x2029
    ||| v == 0x202f
    ||| v == 0x205f
    ||| v == 0x3000
}

/// Characters with the Unicode property White_Space.
pub fn is_whitespace(c: char) -> (yes: bool)
    ensures
        yes == is_space(c),
{
    let v: u32 = c as u32;
    (0x9 <= v && v <= 0xd) || v == 0x20 || v == 0x85 || v == 0xa0 || v == 0x1680 || (0x2000 <= v
        && v <= 0x200a) || v == 0x2028 || v == 0x2029 || v == 0x202f || v == 0x205f || v == 0x3000
}

/// `text` without the white space at its start.
pub open spec fn trimmed_start(text: Seq<char>) -> Seq<char>
    decreases text.len(),
{
    if text.len() > 0 && is_space(text[0]) {
        trimmed_start(text.drop_first())
    } else {
        text
    }
}

/// `text` without the white space at its end.
pub open spec fn trimmed_end(text: Seq<char>) -> Seq<char>
    decreases text.len(),
{
    if text.len() > 0 && is_space(text.last()) {
        trimmed_end(text.drop_last())
    } else {
        text
    }
}

/// `text` without the white space around it.
pub open spec fn trimmed(text: Seq<char>) -> Seq<char> {
    trimmed_end(trimmed_start(text))
}

/// Removes the white space around a text.
pub fn trim(text: &Vec<char>) -> (out: Vec<char>)
    ensures
        out@ == trimmed(text@),
{
    let mut from: usize = 0;
    assert(text@.skip(0) =~= text@);
    while from < text.len() && is_whitespace(text[from])
        invariant
            from <= text@.len(),
            trimmed_start(text@.skip(from as int)) == trimmed_start(text@),
        decreases text.len() - from,
    {
        assert(text@.skip(from as int).drop_first() =~= text@.skip(from + 1));
        from = from + 1;
    }
    let ghost start = text@.skip(from as int);
    let mut to: usize = text.len();
    assert(text@.subrange(from as int, to as int) =~= start);
    while to > from && is_whitespace(text[to - 1])
        invariant
            from <= to <= text@.len(),
            trimmed_end(text@.subrange(from as int, to as int)) == trimmed_end(start),
        decreases to,
    {
        assert(text@.subrange(from as int, to as int).drop_last() =~= text@.subrange(
            from as int,
            to - 1,
        ));
        to = to - 1;
    }
    part(text, from, to)
}

/// Whether `c` is an ASCII decimal digit.
pub open spec fn is_digit(c: char) -> bool {
    '0' <= c && c <= '9'
}

/// Whether `text` is a non-empty run of decimal digits.
pub open spec fn is_number(text: Seq<char>) -> bool {
    text.len() > 0 && forall|i: int| 0 <= i < text.len() ==> is_digit(#[trigger] text[i])
}

/// The value of a run of decimal digits.
pub open spec fn number_value(text: Seq<char>) -> int
    decreases text.len(),
{
    if text.len() == 0 {
        0
    } else {
        10 * number_value(text.drop_last()) + (text.last() as int - '0' as int)
    }
}

/// A longer run of digits has no smaller value.
proof fn lemma_number_value_grows(text: Seq<char>, n: int)
    requires
        0 <= n <= text.len(),
        forall|i: int| 0 <= i < text.len() ==> is_digit(#[trigger] text[i]),
    ensures
        0 <= number_value(text.take(n)) <= number_value(text),
    decreases text.len(),
{
    if n == text.len() {
        assert(text.take(n) =~= text);
        if n > 0 {
            let head = text.drop_last();
            assert forall|i: int| 0 <= i < head.len() implies is_digit(#[trigger] head[i]) by {
                assert(head[i] == text[i]);
            }
            lemma_number_value_grows(head, head.len() as int);
            assert(head.take(head.len() as int) =~= head);
            assert(is_digit(text[text.len() - 1]));
        }
    } else {
        let head = text.drop_last();
        assert forall|i: int| 0 <= i < head.len() implies is_digit(#[trigger] head[i]) by {
            assert(head[i] == text[i]);
        }
        lemma_number_value_grows(head, n);
        assert(head.take(n) =~= text.take(n));
        assert(is_digit(text[text.len() - 1]));
    }
}

/// The digits from `from` on, as a number up to `limit`.
fn digits_from(text: &Vec<char>, from: usize, limit: u64) -> (value: Option<u64>)
    requires
        from <= text@.len(),
    ensures
        match value {
            Some(v) => is_number(text@.skip(from as int)) && v == number_value(
                text@.skip(from as int),
            ) && v <= limit,
            None => !(is_number(text@.skip(from as int)) && number_value(text@.skip(from as int))
                <= limit),
        },
{
    let ghost digits = text@.skip(from as int);
    if from == text.len() {
        return None;
    }
    let mut value: u64 = 0;
    let mut i: usize = from;
    assert(digits.take(0) =~= Seq::<char>::empty());
    while i < text.len()
        invariant
            from <= i <= text@.len(),
            digits == text@.skip(from as int),
            forall|k: int| 0 <= k < i - from ==> is_digit(#[trigger] digits[k]),
            value == number_value(digits.take(i - from)),
            value <= limit,
        decreases text.len() - i,
    {
        let c = text[i];
        assert(digits[i - from] == c);
        if !('0' <= c && c <= '9') {
            assert(!is_digit(digits[i - from]));
            return None;
        }
        let d: u64 = (c as u32 - '0' as u32) as u64;
        proof {
            assert(digits.take(i + 1 - from).drop_last() =~= digits.take(i - from));
        }
        if d > limit || value > limit / 10 || value * 10 > limit - d {
            proof {
                if is_number(digits) {
                    lemma_number_value_grows(digits, i + 1 - from);
                }
            }
            return None;
        }
        value = value * 10 + d;
        i = i + 1;
    }
    assert(digits.take(i - from) =~= digits);
    Some(value)
}

/// The value of a decimal number with an optional plus sign, up to `limit`.
pub open spec fn unsigned_value(text: Seq<char>, limit: int) -> Option<int> {
    let digits = if text.len() > 0 && text[0] == '+' {
        text.drop_first()
    } else {
        text
    };
    if is_number(digits) && number_value(digits) <= limit {
        Some(number_value(digits))
    } else {
        None
    }
}

/// Reads a decimal `u64` with an optional plus sign.
pub fn parse_u64(text: &Vec<char>) -> (value: Option<u64>)
    ensures
        match (unsigned_value(text@, u64::MAX as int), value) {
            (Some(v), Some(w)) => v == w,
            (None, None) => true,
            _ => false,
        },
{
    if text.len() > 0 && text[0] == '+' {
        assert(text@.skip(1) =~= text@.drop_first());
        digits_from(text, 1, u64::MAX)
    } else {
        assert(text@.skip(0) =~= text@);
        digits_from(text, 0, u64::MAX)
    }
}

/// The value of a decimal `i32` with an optional sign.
pub open spec fn signed_value(text: Seq<char>) -> Option<int> {
    if text.len() > 0 && text[0] == '-' {
        if is_number(text.drop_first()) && number_value(text.drop_first()) <= 0x8000_0000 {
            Some(-number_value(text.drop_first()))
        } else {
            None
        }
    } else {
        unsigned_value(text, i32::MAX as int)
    }
}

/// Reads a decimal `i32` with an optional sign.
pub fn parse_i32(text: &Vec<char>) -> (value: Option<i32>)
    ensures
        match (signed_value(text@), value) {
            (Some(v), Some(w)) => v == w,
            (None, None) => true,
            _ => false,
        },
{
    if text.len() > 0 && text[0] == '-' {
        assert(text@.skip(1) =~= text@.drop_first());
        match digits_from(text, 1, 0x8000_0000) {
            Some(v) => Some((0 - v as i64) as i32),
            None => None,
        }
    } else if text.len() > 0 && text[0] == '+' {
        assert(text@.skip(1) =~= text@.drop_first());
        match digits_from(text, 1, 0x7fff_ffff) {
            Some(v) => Some(v as i32),
            None => None,
        }
    } else {
        assert(text@.skip(0) =~= text@);
        match digits_from(text, 0, 0x7fff_ffff) {
            Some(v) => Some(v as i32),
            None => None,
        }
    }
}

/// The lower-case form of an ASCII letter; other characters are unchanged.
pub open spec fn ascii_lower(c: char) -> char {
    if 'A' <= c && c <= 'Z' {
        ((c as u8) + 32) as char
    } else {
        c
    }
}

/// Whether two texts agree apart from the case of ASCII letters.
pub open spec fn same_ignoring_case(a: Seq<char>, b: Seq<char>) -> bool {
    a.len() == b.len() && forall|i: int|
        0 <= i < a.len() ==> ascii_lower(#[trigger] a[i]) == ascii_lower(b[i])
}

/// The lower-case form of an ASCII letter.
pub fn to_ascii_lower(c: char) -> (lower: char)
    ensures
        lower == ascii_lower(c),
{
    if 'A' <= c && c <= 'Z' {
        ((c as u8) + 32) as char
    } else {
        c
    }
}

/// Whether a text equals a literal apart from the case of ASCII letters.
pub fn equals_ignoring_case(text: &Vec<char>, literal: &str) -> (same: bool)
    ensures
        same == same_ignoring_case(text@, literal@),
{
    let other = chars_of(literal);
    if text.len() != other.len() {
        return false;
    }
    let mut i: usize = 0;
    while i < text.len()
        invariant
            i <= text@.len(),
            text@.len() == other@.len(),
            other@ == literal@,
            forall|k: int|
                0 <= k < i ==> ascii_lower(#[trigger] text@[k]) == ascii_lower(other@[k]),
        decreases text.len() - i,
    {
        if to_ascii_lower(text[i]) != to_ascii_lower(other[i]) {
            return false;
        }
        i = i + 1;
    }
    true
}

/// The value of a hexadecimal digit.
pub open spec fn hex_value(c: char) -> Option<u8> {
    if '0' <= c && c <= '9' {
        Some((c as u8 - '0' as u8) as u8)
    } else if 'a' <= c && c <= 'f' {
        Some((c as u8 - 'a' as u8 + 10) as u8)
    } else if 'A' <= c && c <= 'F' {
        Some((c as u8 - 'A' as u8 + 10) as u8)
    } else {
        None
    }
}

/// The value of a hexadecimal digit.
pub fn hex_digit(c: char) -> (value: Option<u8>)
    ensures
        value == hex_value(c),
        value matches Some(v) ==> v < 16,
{
    if '0' <= c && c <= '9' {
        Some(c as u8 - '0' as u8)
    } else if 'a' <= c && c <= 'f' {
        Some(c as u8 - 'a' as u8 + 10)
    } else if 'A' <= c && c <= 'F' {
        Some(c as u8 - 'A' as u8 + 10)
    } else {
        None
    }
}

/// Whether `text` starts with `prefix`.
pub open spec fn starts_with(text: Seq<char>, prefix: Seq<char>) -> bool {
    text.len() >= prefix.len() && text.take(prefix.len() as int) == prefix
}

/// `text` behind a literal prefix.
pub fn strip_prefix(text: &Vec<char>, prefix: &str) -> (rest: Option<Vec<char>>)
    ensures
        match rest {
            Some(rest) => starts_with(text@, prefix@) && rest@ == text@.skip(
                prefix@.len() as int,
            ),
            None => !starts_with(text@, prefix@),
        },
{
    let head = chars_of(prefix);
    if text.len() < head.len() {
        return None;
    }
    let start = part(text, 0, head.len());
    assert(start@ =~= text@.take(prefix@.len() as int));
    if same_chars(&start, &head) {
        let rest = part(text, head.len(), text.len());
        assert(rest@ =~= text@.skip(prefix@.len() as int));
        Some(rest)
    } else {
        None
    }
}

} // verus!
