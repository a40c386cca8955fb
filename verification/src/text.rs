//! Text helpers: strings as sequences of characters.

use vstd::prelude::*;

verus! {

/// `String::push` of std: appends one character to the string.
pub assume_specification[ String::push ](s: &mut String, ch: char)
    ensures
        final(s)@ == old(s)@.push(ch),
;

/// Unicode normalization form C of a text, by the tables of the
/// `unicode_normalization` crate.
pub uninterp spec fn nfc_form(text: Seq<char>) -> Seq<char>;

/// `UnicodeNormalization::nfc` of the `unicode_normalization` crate: the
/// characters that its iterator yields for `text` are the text's
/// normalization form C, which depends on the text alone.
#[verifier::external_body]
fn normalize_nfc(text: &str) -> (normal: String)
    ensures
        normal@ == nfc_form(text@),
{
    unicode_normalization::UnicodeNormalization::nfc(text).collect()
}

/// The characters of a string.
pub fn chars_of(text: &str) -> (chars: Vec<char>)
    ensures
        chars@ == text@,
{
    let mut chars: Vec<char> = Vec::new();
    for c in it: text.chars()
        invariant
            it.seq() == text@,
            chars@ == text@.take(it.index() as int),
    {
        chars.push(c);
    }
    assert(text@.take(text@.len() as int) =~= text@);
    chars
}

/// A string of the given characters.
pub fn string_of(chars: &Vec<char>) -> (text: String)
    ensures
        text@ == chars@,
{
    let mut text = String::new();
    let mut i: usize = 0;
    while i < chars.len()
        invariant
            i <= chars@.len(),
            text@ == chars@.take(i as int),
        decreases chars.len() - i,
    {
        text.push(chars[i]);
        i = i + 1;
    }
    assert(chars@.take(i as int) =~= chars@);
    text
}

/// The character that a base character and a combining mark compose into,
/// where that is a single, different character.
pub open spec fn composition(base: char, mark: char) -> Option<char> {
    composed_from(base, nfc_form(seq![base, mark]))
}

/// Whether a normalized pair is a single character other than its base.
pub open spec fn composed_from(base: char, normal: Seq<char>) -> Option<char> {
    if normal.len() == 1 && normal[0] != base {
        Some(normal[0])
    } else {
        None
    }
}

/// Reads a normalized pair: a single character other than the base counts as
/// a composition.
pub fn composition_of(base: char, normal: &str) -> (composed: Option<char>)
    ensures
        composed == composed_from(base, normal@),
{
    let chars = chars_of(normal);
    if chars.len() == 1 && chars[0] != base {
        Some(chars[0])
    } else {
        None
    }
}

/// Composes a base character and a combining mark.
pub fn compose(base: char, mark: char) -> (composed: Option<char>)
    ensures
        composed == composition(base, mark),
{
    let mut pair = String::new();
    pair.push(base);
    pair.push(mark);
    assert(pair@ =~= seq![base, mark]);
    let normal = normalize_nfc(pair.as_str());
    composition_of(base, normal.as_str())
}

} // verus!
