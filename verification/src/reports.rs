//! Building blocks of the replies that the terminal sends.

use vstd::prelude::*;

use crate::text::chars_of;

verus! {

/// The bytes of an ASCII text.
pub open spec fn ascii_bytes(text: Seq<char>) -> Seq<u8> {
    Seq::new(text.len(), |i: int| text[i] as u8)
}

/// Appends an ASCII text to a byte buffer.
pub fn append_ascii(buffer: &mut Vec<u8>, text: &Vec<char>)
    ensures
        final(buffer)@ == old(buffer)@ + ascii_bytes(text@),
{
    let mut i: usize = 0;
    let ghost bytes = ascii_bytes(text@);
    assert(buffer@ =~= old(buffer)@ + bytes.take(0));
    while i < text.len()
        invariant
            i <= text@.len(),
            bytes == ascii_bytes(text@),
            buffer@ == old(buffer)@ + bytes.take(i as int),
        decreases text.len() - i,
    {
        buffer.push(text[i] as u8);
        i = i + 1;
        assert(buffer@ =~= old(buffer)@ + bytes.take(i as int));
    }
    assert(bytes.take(i as int) =~= bytes);
}

/// Appends a text to another.
pub fn append_chars(text: &mut Vec<char>, more: &str)
    ensures
        final(text)@ == old(text)@ + more@,
{
    let mut other = chars_of(more);
    text.append(&mut other);
}

/// A lower-case hexadecimal digit.
pub open spec fn hex_char(d: int) -> char {
    if d < 10 {
        (48 + d) as char
    } else {
        (87 + d) as char
    }
}

/// Four lower-case hexadecimal digits.
pub open spec fn hex4_text(n: int) -> Seq<char> {
    seq![
        hex_char(n / 4096 % 16),
        hex_char(n / 256 % 16),
        hex_char(n / 16 % 16),
        hex_char(n % 16),
    ]
}

/// A lower-case hexadecimal digit.
fn hex_digit_char(d: u32) -> (c: char)
    requires
        d < 16,
    ensures
        c == hex_char(d as int),
{
    if d < 10 {
        (48u8 + d as u8) as char
    } else {
        (87u8 + d as u8) as char
    }
}

/// Appends four lower-case hexadecimal digits.
pub fn append_hex4(text: &mut Vec<char>, n: u32)
    ensures
        final(text)@ == old(text)@ + hex4_text(n as int),
{
    text.push(hex_digit_char(n / 4096 % 16));
    text.push(hex_digit_char(n / 256 % 16));
    text.push(hex_digit_char(n / 16 % 16));
    text.push(hex_digit_char(n % 16));
    assert(text@ =~= old(text)@ + hex4_text(n as int));
}

} // verus!
