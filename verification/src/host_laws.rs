//! What the commands to the host do: titles, links, colours, notifications and
//! the working directory.

use vstd::prelude::*;

use crate::bounded_text::utf8_len;
use crate::cell::HyperlinkId;
use crate::clipboard::base64_text;
use crate::colors::color_spec;
use crate::colors::hex_digits_value;
use crate::colors::hex_number;
use crate::colors::power16;
use crate::colors::rgb_text;
use crate::colors::scaled;
use crate::colors::Rgb;
use crate::field_laws::fields_stand_between_separators;
use crate::field_laws::texts_are_split_at_the_first_separator;
use crate::field_laws::texts_without_separators_are_one_field;
use crate::fields::split_fields;
use crate::fields::starts_with;
use crate::host::announced_cwd;
use crate::host::link_opened;
use crate::host::palette_step;
use crate::host::target_position;
use crate::host::HostState;
use crate::lifecycle::ClockReading;
use crate::osc133::text_of;
use crate::parser::host_commanded;
use crate::parser::osc_parts;
use crate::parser::osc_performed;
use crate::reports::hex4_text;
use crate::reports::hex_char;
use crate::state::TerminalState;

verus! {

/// The text of a command with a number and a value.
pub open spec fn command_text(number: Seq<char>, value: Seq<char>) -> Seq<char> {
    number + seq![';'] + value
}

/// A command is known by what stands before its first semicolon.
proof fn lemma_parts(number: Seq<char>, value: Seq<char>)
    requires
        forall|i: int| 0 <= i < number.len() ==> #[trigger] number[i] != ';',
    ensures
        osc_parts(command_text(number, value)) == (number, value),
{
    texts_are_split_at_the_first_separator(number, ';', value);
}

/// The commands 0, 1 and 2 set titles: 1 that of the icon, 2 that of the window and
/// 0 both, cut to two hundred characters. They change nothing else.
pub proof fn titles_are_set(
    pre: TerminalState,
    which: char,
    title: Seq<char>,
    now: ClockReading,
    post: TerminalState,
)
    requires
        '0' <= which <= '2',
        osc_performed(pre, command_text(seq![which], title), now, post),
    ensures
        post == (TerminalState { host: post.host, ..pre }),
        post.host == (HostState {
            window_title: post.host.window_title,
            icon_title: post.host.icon_title,
            ..pre.host
        }),
        which == '1' ==> post.host.window_title@ == pre.host.window_title@,
        which == '2' ==> post.host.icon_title@ == pre.host.icon_title@,
        which != '1' && title.len() <= 200 ==> post.host.window_title@ == title,
        which != '2' && title.len() <= 200 ==> post.host.icon_title@ == title,
        which != '1' && title.len() > 200 ==> post.host.window_title@ == title.take(200),
        which != '2' && title.len() > 200 ==> post.host.icon_title@ == title.take(200),
{
    lemma_parts(seq![which], title);
    let number = seq![which];
    reveal_strlit("7");
    reveal_strlit("8");
    reveal_strlit("133");
    reveal_strlit("0");
    reveal_strlit("1");
    reveal_strlit("2");
    assert(number[0] == which);
    assert(number != "7"@) by {
        assert("7"@[0] == '7');
    }
    assert(number != "8"@) by {
        assert("8"@[0] == '8');
    }
    assert("133"@.len() == 3);
    assert("0"@ =~= seq!['0'] && "1"@ =~= seq!['1'] && "2"@ =~= seq!['2']);
    assert("0"@[0] == '0' && "1"@[0] == '1' && "2"@[0] == '2');
}

/// The value of a hexadecimal digit.
pub open spec fn hex_of(c: char) -> int {
    if '0' <= c <= '9' {
        c as int - '0' as int
    } else if 'a' <= c <= 'f' {
        c as int - 'a' as int + 10
    } else {
        c as int - 'A' as int + 10
    }
}

/// Whether a character is a hexadecimal digit.
pub open spec fn is_hex(c: char) -> bool {
    '0' <= c <= '9' || 'a' <= c <= 'f' || 'A' <= c <= 'F'
}

/// Two digits give a number.
proof fn lemma_two_digits(text: Seq<char>)
    requires
        text.len() == 2,
        is_hex(text[0]),
        is_hex(text[1]),
    ensures
        hex_number(text) == Some(16 * hex_of(text[0]) + hex_of(text[1])),
{
    reveal_with_fuel(hex_digits_value, 3);
    assert(text.drop_last().last() == text[0]);
    assert(text.last() == text[1]);
    assert(crate::colors::all_hex(text));
}

/// A colour with a number sign in front is given by two hexadecimal digits each of
/// red, green and blue.
pub proof fn hash_colours_have_two_digits_each(text: Seq<char>)
    requires
        text.len() == 7,
        text[0] == '#',
        forall|i: int| 1 <= i < 7 ==> is_hex(#[trigger] text[i]),
    ensures
        color_spec(text) == Some(
            (
                (16 * hex_of(text[1]) + hex_of(text[2])) as u8,
                (16 * hex_of(text[3]) + hex_of(text[4])) as u8,
                (16 * hex_of(text[5]) + hex_of(text[6])) as u8,
            ),
        ),
{
    let hex = text.drop_first();
    let r = hex.subrange(0, 2);
    let g = hex.subrange(2, 4);
    let b = hex.subrange(4, 6);
    assert(r[0] == text[1] && r[1] == text[2]);
    assert(g[0] == text[3] && g[1] == text[4]);
    assert(b[0] == text[5] && b[1] == text[6]);
    lemma_two_digits(r);
    lemma_two_digits(g);
    lemma_two_digits(b);
}

/// Four digits give back the number that they were written for.
proof fn lemma_four_digits(n: int)
    requires
        0 <= n < 65536,
    ensures
        hex_number(hex4_text(n)) == Some(n),
        hex4_text(n).len() == 4,
        forall|i: int| 0 <= i < 4 ==> is_hex(#[trigger] hex4_text(n)[i]),
{
    let text = hex4_text(n);
    let a = n / 4096 % 16;
    let b = n / 256 % 16;
    let c = n / 16 % 16;
    let d = n % 16;
    assert(text[0] == hex_char(a) && text[1] == hex_char(b) && text[2] == hex_char(c) && text[3]
        == hex_char(d));
    assert(n == 4096 * a + 256 * b + 16 * c + d);
    lemma_hex_char(a);
    lemma_hex_char(b);
    lemma_hex_char(c);
    lemma_hex_char(d);
    assert(crate::colors::all_hex(text));
    lemma_digit_values(text);
}

/// The value of four digits.
proof fn lemma_digit_values(text: Seq<char>)
    requires
        text.len() == 4,
        crate::colors::all_hex(text),
    ensures
        hex_digits_value(text) == 4096 * digit_value(text[0]) + 256 * digit_value(text[1]) + 16
            * digit_value(text[2]) + digit_value(text[3]),
{
    let t3 = text.drop_last();
    let t2 = t3.drop_last();
    let t1 = t2.drop_last();
    assert(t3.last() == text[2] && t2.last() == text[1] && t1.last() == text[0]);
    assert(t1.drop_last() =~= Seq::<char>::empty());
    assert(hex_digits_value(Seq::<char>::empty()) == 0);
    assert(hex_digits_value(t1) == digit_value(text[0]));
    assert(hex_digits_value(t2) == 16 * hex_digits_value(t1) + digit_value(text[1]));
    assert(hex_digits_value(t3) == 16 * hex_digits_value(t2) + digit_value(text[2]));
    assert(hex_digits_value(text) == 16 * hex_digits_value(t3) + digit_value(text[3]));
}

/// What a digit counts.
spec fn digit_value(c: char) -> int {
    match crate::fields::hex_value(c) {
        Some(d) => d as int,
        None => 0,
    }
}

/// A digit is written as itself.
proof fn lemma_hex_char(d: int)
    requires
        0 <= d < 16,
    ensures
        is_hex(hex_char(d)),
        hex_of(hex_char(d)) == d,
        crate::fields::hex_value(hex_char(d)) == Some(d as u8),
        hex_char(d) != '/' && hex_char(d) != '+',
{
}

/// A colour that is reported can be set again: what stands in the report before
/// its end is a specification of the same colour.
pub proof fn reported_colours_can_be_set(color: Rgb, text: Seq<char>)
    requires
        rgb_text(color) == text + "\x1b\\"@,
    ensures
        color_spec(text) == Some(color),
{
    reveal_strlit("rgb:");
    reveal_strlit("/");
    reveal_strlit("\x1b\\");
    let r = hex4_text(color.0 * 257);
    let g = hex4_text(color.1 * 257);
    let b = hex4_text(color.2 * 257);
    lemma_four_digits(color.0 * 257);
    lemma_four_digits(color.1 * 257);
    lemma_four_digits(color.2 * 257);
    let body = r + seq!['/'] + (g + seq!['/'] + b);
    let whole = "rgb:"@ + body;
    assert(rgb_text(color) =~= whole + "\x1b\\"@);
    assert(text =~= whole) by {
        assert(text.len() == whole.len());
        assert forall|i: int| 0 <= i < text.len() implies text[i] == whole[i] by {
            assert((text + "\x1b\\"@)[i] == text[i]);
            assert((whole + "\x1b\\"@)[i] == whole[i]);
        }
    }
    assert(text[0] == "rgb:"@[0]);
    assert(text.take(4) =~= "rgb:"@);
    assert(text.skip(4) =~= body);
    lemma_no_slash(r);
    lemma_no_slash(g);
    lemma_no_slash(b);
    texts_without_separators_are_one_field(r, '/');
    texts_without_separators_are_one_field(g, '/');
    texts_without_separators_are_one_field(b, '/');
    fields_stand_between_separators(r, '/', g + seq!['/'] + b);
    fields_stand_between_separators(g, '/', b);
    let parts = split_fields(body, '/');
    assert(parts =~= seq![r, g, b]);
    lemma_scaled(color.0 as int);
    lemma_scaled(color.1 as int);
    lemma_scaled(color.2 as int);
}

/// Hexadecimal digits are no slashes.
proof fn lemma_no_slash(digits: Seq<char>)
    requires
        forall|i: int| 0 <= i < digits.len() ==> is_hex(#[trigger] digits[i]),
    ensures
        forall|i: int| 0 <= i < digits.len() ==> #[trigger] digits[i] != '/',
{
    assert forall|i: int| 0 <= i < digits.len() implies #[trigger] digits[i] != '/' by {
        assert(is_hex(digits[i]));
    }
}

/// A component of sixteen bits gives back the one of eight.
proof fn lemma_scaled(v: int)
    requires
        0 <= v <= 255,
    ensures
        scaled(v * 257, 4) == v,
{
    reveal_with_fuel(power16, 6);
    assert(power16(4) == 65536);
    assert((v * 257 * 255 + 32767) / 65535 == v) by (nonlinear_arith)
        requires
            0 <= v <= 255,
    ;
}

/// A component of one to four hexadecimal digits is scaled to eight bits: none to
/// none, all to all, and to the nearest between.
pub proof fn components_are_scaled_to_the_nearest(value: int, digits: int)
    requires
        1 <= digits <= 4,
        0 <= value < power16(digits),
    ensures
        ({
            let max = power16(digits) - 1;
            let c = scaled(value, digits);
            &&& 0 <= c <= 255
            &&& value == 0 ==> c == 0
            &&& value == max ==> c == 255
            &&& 2 * (c * max - value * 255) <= max
            &&& 2 * (value * 255 - c * max) <= max
        }),
{
    reveal_with_fuel(power16, 6);
    let max = power16(digits) - 1;
    let c = scaled(value, digits);
    assert(max == 15 || max == 255 || max == 4095 || max == 65535);
    assert(0 <= c <= 255 && 2 * (c * max - value * 255) <= max && 2 * (value * 255 - c * max) <= max
        && (value == 0 ==> c == 0) && (value == max ==> c == 255)) by (nonlinear_arith)
        requires
            0 <= value <= max,
            max == 15 || max == 255 || max == 4095 || max == 65535,
            c == (value * 255 + max / 2) / max,
    ;
}

/// The commands 10, 11 and 12 set the colours of the foreground, the background and
/// the cursor, each by itself; 110, 111 and 112 take them back.
pub proof fn dynamic_colours_are_set_by_themselves(
    pre: HostState,
    number: Seq<char>,
    value: Seq<char>,
    color: Rgb,
    enabled: bool,
    now_ns: u64,
    post: HostState,
)
    requires
        host_commanded(pre, number, value, enabled, now_ns, post),
        color_spec(value) == Some(color),
        number == seq!['1', '0'] || number == seq!['1', '1'] || number == seq!['1', '2'] || number
            == seq!['1', '1', '0'] || number == seq!['1', '1', '1'] || number == seq![
            '1',
            '1',
            '2',
        ],
    ensures
        post == (HostState {
            dynamic_fg: post.dynamic_fg,
            dynamic_bg: post.dynamic_bg,
            dynamic_cursor_color: post.dynamic_cursor_color,
            ..pre
        }),
        ({
            let set = number.len() == 2;
            let last = number.last();
            let given = if set {
                Some(color)
            } else {
                None
            };
            &&& post.dynamic_fg == if last == '0' {
                given
            } else {
                pre.dynamic_fg
            }
            &&& post.dynamic_bg == if last == '1' {
                given
            } else {
                pre.dynamic_bg
            }
            &&& post.dynamic_cursor_color == if last == '2' {
                given
            } else {
                pre.dynamic_cursor_color
            }
        }),
{
    lemma_numbers();
    if number.len() == 2 {
        assert(number[0] == '1');
        assert(number != "52"@);
    } else {
        assert(number.len() == 3);
        assert(number[1] == '1' && number[0] == '1');
        assert(number != "104"@ && number != "777"@ && number != "133"@);
    }
    assert(value != "?"@) by {
        reveal_strlit("?");
        reveal_strlit("rgb:");
        if value == "?"@ {
            assert(value[0] == '?');
            assert(!starts_with(value, "rgb:"@));
        }
    }
}

/// The numbers of commands are told apart.
pub proof fn lemma_numbers()
    ensures
        "0"@ == seq!['0'],
        "1"@ == seq!['1'],
        "2"@ == seq!['2'],
        "4"@ == seq!['4'],
        "7"@ == seq!['7'],
        "8"@ == seq!['8'],
        "9"@ == seq!['9'],
        "10"@ == seq!['1', '0'],
        "11"@ == seq!['1', '1'],
        "12"@ == seq!['1', '2'],
        "52"@ == seq!['5', '2'],
        "104"@ == seq!['1', '0', '4'],
        "110"@ == seq!['1', '1', '0'],
        "111"@ == seq!['1', '1', '1'],
        "112"@ == seq!['1', '1', '2'],
        "133"@ == seq!['1', '3', '3'],
        "777"@ == seq!['7', '7', '7'],
        "5522"@ == seq!['5', '5', '2', '2'],
        "7770"@ == seq!['7', '7', '7', '0'],
        seq!['1', '0'][1] == '0' && seq!['1', '1'][1] == '1' && seq!['1', '2'][1] == '2',
        seq!['1', '1', '0'][2] == '0' && seq!['1', '1', '1'][2] == '1' && seq!['1', '1', '2'][2]
            == '2',
        seq!['1', '0', '4'][1] == '0' && seq!['1', '1', '0'][1] == '1' && seq!['1', '1', '1'][1]
            == '1' && seq!['1', '1', '2'][1] == '1',
        seq!['5', '2'][0] == '5' && seq!['1', '0'][0] == '1' && seq!['1', '1'][0] == '1' && seq![
            '1',
            '2',
        ][0] == '1',
        seq!['7', '7', '7'][0] == '7' && seq!['1', '1', '0'][0] == '1' && seq!['1', '1', '1'][0]
            == '1' && seq!['1', '1', '2'][0] == '1',
{
    reveal_strlit("0");
    reveal_strlit("1");
    reveal_strlit("2");
    reveal_strlit("4");
    reveal_strlit("7");
    reveal_strlit("8");
    reveal_strlit("9");
    reveal_strlit("10");
    reveal_strlit("11");
    reveal_strlit("12");
    reveal_strlit("52");
    reveal_strlit("104");
    reveal_strlit("110");
    reveal_strlit("111");
    reveal_strlit("112");
    reveal_strlit("133");
    reveal_strlit("777");
    reveal_strlit("5522");
    reveal_strlit("7770");
    assert("0"@ =~= seq!['0']);
    assert("1"@ =~= seq!['1']);
    assert("2"@ =~= seq!['2']);
    assert("4"@ =~= seq!['4']);
    assert("7"@ =~= seq!['7']);
    assert("8"@ =~= seq!['8']);
    assert("9"@ =~= seq!['9']);
    assert("10"@ =~= seq!['1', '0']);
    assert("11"@ =~= seq!['1', '1']);
    assert("12"@ =~= seq!['1', '2']);
    assert("52"@ =~= seq!['5', '2']);
    assert("104"@ =~= seq!['1', '0', '4']);
    assert("110"@ =~= seq!['1', '1', '0']);
    assert("111"@ =~= seq!['1', '1', '1']);
    assert("112"@ =~= seq!['1', '1', '2']);
    assert("133"@ =~= seq!['1', '3', '3']);
    assert("777"@ =~= seq!['7', '7', '7']);
    assert("5522"@ =~= seq!['5', '5', '2', '2']);
    assert("7770"@ =~= seq!['7', '7', '7', '0']);
}

/// The position of a target is that of an entry with it.
proof fn lemma_target(targets: Seq<String>, uri: Seq<char>)
    ensures
        match target_position(targets, uri) {
            Some(i) => 0 <= i < targets.len() && targets[i]@ == uri,
            None => forall|i: int| 0 <= i < targets.len() ==> (#[trigger] targets[i])@ != uri,
        },
    decreases targets.len(),
{
    if targets.len() > 0 {
        let head = targets.drop_last();
        lemma_target(head, uri);
        assert forall|i: int| 0 <= i < head.len() implies #[trigger] targets[i] == head[i] by {}
    }
}

/// A link that was opened is found by its reference, with its target; references
/// that were given before keep their targets, and the same target gets the same
/// reference. A command without a target closes the link.
pub proof fn links_are_found_by_their_references(
    pre: HostState,
    params: Seq<char>,
    uri: Seq<char>,
    id: HyperlinkId,
    post: HostState,
    other: HyperlinkId,
)
    requires
        forall|i: int| 0 <= i < params.len() ==> #[trigger] params[i] != ';',
        pre.hyperlinks@.len() <= 4096,
        link_opened(pre, params + seq![';'] + uri, id, post),
    ensures
        uri.len() == 0 ==> id.raw == 0,
        id.raw != 0 ==> post.link_of(id) == Some(uri),
        pre.link_of(other) is Some ==> post.link_of(other) == pre.link_of(other),
        id.raw != 0 && pre.link_of(other) == Some(uri) ==> pre.link_of(id) == Some(uri),
        post == (HostState { hyperlinks: post.hyperlinks, ..pre }),
{
    texts_are_split_at_the_first_separator(params, ';', uri);
    lemma_target(pre.hyperlinks@, uri);
    if pre.link_of(other) is Some {
        let i = other.raw - 1;
        if post.hyperlinks@.len() == pre.hyperlinks@.len() + 1 {
            assert(post.hyperlinks@.drop_last()[i] == post.hyperlinks@[i]);
        }
    }
}

/// Whether a character is no control character.
pub open spec fn can_be_written(c: char) -> bool {
    c >= ' ' && (c < '\u{7f}' || c > '\u{9f}')
}

/// A text without control characters has none.
proof fn lemma_no_control(text: Seq<char>)
    requires
        forall|i: int| 0 <= i < text.len() ==> can_be_written(#[trigger] text[i]),
    ensures
        !crate::host::has_control(text),
{
    if crate::host::has_control(text) {
        let i = choose|i: int| 0 <= i < text.len() && crate::osc133::is_control(#[trigger] text[i]);
        assert(can_be_written(text[i]));
        lemma_written(text[i]);
    }
}

/// What can be written is no control character.
proof fn lemma_written(c: char)
    requires
        can_be_written(c),
    ensures
        !crate::osc133::is_control(c),
{
}

/// A target that may be opened gets a reference: one of the web, of a file transfer,
/// of a file or of mail, without control characters and not too long.
pub proof fn web_addresses_are_links(
    pre: HostState,
    params: Seq<char>,
    scheme: Seq<char>,
    rest: Seq<char>,
    id: HyperlinkId,
    post: HostState,
)
    requires
        forall|i: int| 0 <= i < params.len() ==> #[trigger] params[i] != ';',
        scheme == "http"@ || scheme == "https"@ || scheme == "ftp"@ || scheme == "file"@ || scheme
            == "mailto"@,
        rest.len() > 0,
        forall|i: int| 0 <= i < params.len() ==> can_be_written(#[trigger] params[i]),
        forall|i: int| 0 <= i < rest.len() ==> can_be_written(#[trigger] rest[i]),
        utf8_len(params) <= 1024,
        utf8_len(scheme + seq![':'] + rest) <= 2048,
        pre.hyperlinks@.len() < 4096,
        link_opened(pre, params + seq![';'] + (scheme + seq![':'] + rest), id, post),
    ensures
        id.raw != 0,
        post.link_of(id) == Some(scheme + seq![':'] + rest),
{
    let uri = scheme + seq![':'] + rest;
    texts_are_split_at_the_first_separator(params, ';', uri);
    reveal_strlit("http");
    reveal_strlit("https");
    reveal_strlit("ftp");
    reveal_strlit("file");
    reveal_strlit("mailto");
    assert forall|i: int| 0 <= i < scheme.len() implies 'a' <= #[trigger] scheme[i] <= 'z' by {}
    texts_are_split_at_the_first_separator(scheme, ':', rest);
    assert forall|i: int| 0 <= i < uri.len() implies can_be_written(#[trigger] uri[i]) by {
        if i < scheme.len() {
            assert(uri[i] == scheme[i]);
        } else if i > scheme.len() {
            assert(uri[i] == rest[i - scheme.len() - 1]);
            assert(can_be_written(rest[i - scheme.len() - 1]));
        } else {
            assert(uri[i] == ':');
        }
    }
    lemma_no_control(uri);
    lemma_no_control(params);
    assert(crate::fields::same_ignoring_case(scheme, scheme));
    lemma_target(pre.hyperlinks@, uri);
}

/// A notification whose text can be shown is queued behind the others with its text
/// as it is, and with its title where it has one.
pub proof fn notifications_are_queued(
    pre: HostState,
    title: Seq<char>,
    body: Seq<char>,
    post: HostState,
)
    requires
        crate::host::notification_queued(pre, title, body, post),
        0 < body.len() <= 512,
        title.len() <= 512,
        forall|i: int| 0 <= i < body.len() ==> '!' <= #[trigger] body[i] <= '~',
        forall|i: int| 0 <= i < title.len() ==> '!' <= #[trigger] title[i] <= '~',
    ensures
        post.pending_notifications@.len() == pre.pending_notifications@.len() + 1,
        post.pending_notifications@.drop_last() == pre.pending_notifications@,
        post.pending_notifications@.last().1@ == body,
        post.pending_notifications@.last().0@ == if title.len() > 0 {
            title
        } else {
            pre.app_name@
        },
{
    lemma_plain_field(body);
    lemma_plain_field(title);
}

/// A field that can be shown stays as it is.
proof fn lemma_plain_field(text: Seq<char>)
    requires
        text.len() <= 512,
        forall|i: int| 0 <= i < text.len() ==> '!' <= #[trigger] text[i] <= '~',
    ensures
        crate::host::notification_field(text) == text,
{
    assert(crate::host::replaced(text) =~= text);
    if text.len() > 0 {
        assert('!' <= text[0] <= '~' && '!' <= text[text.len() - 1] <= '~');
        assert(!crate::fields::is_space(text[0]) && !crate::fields::is_space(text.last()));
    }
}

/// What a program stores in the clipboard is kept for the application to take, and
/// a question mark asks for what is there; whatever stands before the semicolon.
pub proof fn clipboard_commands_store_and_ask(
    pre: HostState,
    selection: Seq<char>,
    data: Seq<char>,
    enabled: bool,
    now_ns: u64,
    post: HostState,
)
    requires
        forall|i: int| 0 <= i < selection.len() ==> #[trigger] selection[i] != ';',
        host_commanded(
            pre,
            seq!['5', '2'],
            selection + seq![';'] + data,
            enabled,
            now_ns,
            post,
        ),
    ensures
        data == seq!['?'] ==> post == (HostState { pending_osc52_clipboard_query: true, ..pre }),
        data != seq!['?'] && data.len() > 0 && utf8_len(data) <= 136541 && base64_text(
            data,
        ) is Some && utf8_len(base64_text(data)->0) <= 102400 ==> text_of(
            post.pending_osc52_clipboard_set,
        ) == base64_text(data) && post == (HostState {
            pending_osc52_clipboard_set: post.pending_osc52_clipboard_set,
            ..pre
        }),
        data != seq!['?'] && base64_text(data) is None ==> post == pre,
        data.len() == 0 ==> post == pre,
{
    lemma_numbers();
    reveal_strlit("?");
    assert("?"@ =~= seq!['?']);
    texts_are_split_at_the_first_separator(selection, ';', data);
    if data.len() == 0 {
        assert(data.len() != seq!['?'].len());
    }
}

/// Setting a colour of the palette sets that one, by its number, and no other; a
/// question mark asks for it and sets nothing.
pub proof fn palette_colours_are_set_by_their_numbers(
    palette: Seq<Option<Rgb>>,
    replies: Seq<u8>,
    index: nat,
    spec_text: Seq<char>,
)
    requires
        palette.len() == 256,
        index < 256,
    ensures
        ({
            let digits = crate::commands::decimal_text(index);
            let after = palette_step(palette, replies, digits, spec_text);
            &&& color_spec(spec_text) is Some && spec_text != seq!['?'] ==> after.0
                == palette.update(index as int, color_spec(spec_text)) && after.1 == replies
            &&& color_spec(spec_text) is None ==> after.0 == palette
            &&& spec_text == seq!['?'] ==> after.0 == palette && after.1 == replies
                + crate::reports::ascii_bytes(
                "\x1b]4;"@ + digits + ";"@ + rgb_text(
                    match palette[index as int] {
                        Some(color) => color,
                        None => crate::colors::default_color(index as u8),
                    },
                ),
            )
        }),
{
    crate::print_laws::numbers_are_written_in_decimal(index);
    let digits = crate::commands::decimal_text(index);
    crate::field_laws::numbers_are_read_in_decimal(digits);
    assert('0' <= digits[0] <= '9');
    reveal_strlit("?");
    reveal_strlit("rgb:");
    assert("?"@ =~= seq!['?']);
    assert(seq!['?'][0] == '?');
}

/// A path that is announced as it is, or as a file of this machine, is the working
/// directory, where nothing in it is escaped and it can be shown; a relative path and
/// a file of another machine are none.
pub proof fn announced_directories_are_taken(
    path: Seq<char>,
    host: Seq<char>,
    local: Option<Seq<char>>,
)
    requires
        path.len() > 0,
        path[0] == '/',
        utf8_len(path) <= 4096,
        utf8_len("file://"@ + host + path) <= 16384,
        forall|i: int| 0 <= i < path.len() ==> ' ' <= #[trigger] path[i] <= '~' && path[i] != '%',
        forall|i: int| 0 <= i < host.len() ==> #[trigger] host[i] != '/',
    ensures
        announced_cwd(path, local) == Some(path),
        host.len() == 0 || local == Some(host) ==> announced_cwd("file://"@ + host + path, local)
            == Some(path),
        !crate::host::is_local_host(host, local) ==> announced_cwd(
            "file://"@ + host + path,
            local,
        ) is None,
{
    let bytes = vstd::utf8::encode_utf8(path);
    reveal_strlit("file://");
    assert(bytes.take(0) =~= Seq::<u8>::empty());
    vstd::utf8::encode_utf8_valid_utf8(path);
    vstd::utf8::encode_utf8_decode_utf8(path);
    lemma_no_percent(path);
    crate::packet_laws::plain_bytes_are_kept(bytes, 0, bytes.len() as int);
    assert(crate::osc133::all_displayable(path)) by {
        assert forall|i: int| 0 <= i < path.len() implies crate::osc133::is_displayable(
            #[trigger] path[i],
        ) by {
            lemma_plain_char(path[i]);
        }
    }
    let prefix = "file://"@;
    assert(prefix.len() == 7 && prefix[0] == 'f');
    assert(!starts_with(path, prefix)) by {
        if starts_with(path, prefix) {
            assert(path.take(7)[0] == path[0]);
        }
    }
    let value = prefix + host + path;
    assert(value.take(7) =~= prefix);
    let rest = value.skip(7);
    assert(rest =~= host + path);
    crate::field_laws::first_positions_are_first(rest, '/');
    assert(rest[host.len() as int] == '/');
    let slash = crate::fields::first_position(rest, '/')->0;
    if slash < host.len() {
        assert(rest[slash] == host[slash]);
    }
    assert(slash == host.len());
    assert(rest.take(slash) =~= host);
    assert(rest.skip(slash) =~= path);
    if local == Some(host) {
        assert(crate::fields::same_ignoring_case(host, host));
    }
}

/// A character of ASCII that is no control character can be shown.
proof fn lemma_plain_char(c: char)
    requires
        ' ' <= c <= '~',
    ensures
        crate::osc133::is_displayable(c),
{
}

/// A text of ASCII without percent signs has none among its bytes.
proof fn lemma_no_percent(text: Seq<char>)
    requires
        forall|i: int| 0 <= i < text.len() ==> ' ' <= #[trigger] text[i] <= '~' && text[i] != '%',
    ensures
        forall|i: int|
            0 <= i < vstd::utf8::encode_utf8(text).len() ==> #[trigger] vstd::utf8::encode_utf8(
                text,
            )[i] != 0x25,
{
    assert forall|i: int| 0 <= i < text.len() implies (#[trigger] text[i] as nat) < 128 by {
        lemma_small(text[i]);
    }
    assert(vstd::utf8::is_ascii_chars(text));
    vstd::utf8::is_ascii_chars_encode_utf8(text);
    let bytes = vstd::utf8::encode_utf8(text);
    assert forall|i: int| 0 <= i < bytes.len() implies #[trigger] bytes[i] != 0x25 by {
        assert(bytes[i] == text[i] as u8);
        lemma_small(text[i]);
    }
}

/// The byte of a character of ASCII.
proof fn lemma_small(c: char)
    requires
        ' ' <= c <= '~',
        c != '%',
    ensures
        (c as nat) < 128,
        0 <= c as nat,
        c as u8 != 0x25,
{
}

/// The command 7 announces the working directory, 8 opens and closes links, 9 notifies
/// with a text and 777 with a title and a text.
pub proof fn commands_are_known_by_their_numbers(
    pre: TerminalState,
    number: Seq<char>,
    value: Seq<char>,
    now: ClockReading,
    post: TerminalState,
)
    requires
        number == seq!['7'] || number == seq!['8'] || number == seq!['9'],
        osc_performed(pre, command_text(number, value), now, post),
    ensures
        number == seq!['7'] ==> text_of(post.current_working_dir) == announced_cwd(
            value,
            text_of(pre.host.local_hostname),
        ) && post == (TerminalState { current_working_dir: post.current_working_dir, ..pre }),
        number == seq!['8'] ==> link_opened(pre.host, value, post.current_hyperlink, post.host)
            && post == (TerminalState {
            host: post.host,
            current_hyperlink: post.current_hyperlink,
            ..pre
        }),
        number == seq!['9'] ==> crate::host::notification_queued(
            pre.host,
            Seq::empty(),
            value,
            post.host,
        ),
{
    lemma_numbers();
    lemma_parts(number, value);
    assert(seq!['7'][0] == '7' && seq!['8'][0] == '8' && seq!['9'][0] == '9');
    assert(seq!['0'][0] == '0' && seq!['1'][0] == '1' && seq!['2'][0] == '2' && seq!['4'][0] == '4');
}

/// The command 777 with `notify`, a title and a text notifies with both.
pub proof fn notifications_have_titles(
    pre: HostState,
    title: Seq<char>,
    body: Seq<char>,
    post: HostState,
)
    requires
        forall|i: int| 0 <= i < title.len() ==> #[trigger] title[i] != ';',
        crate::parser::notify_commanded(
            pre,
            "notify"@ + seq![';'] + (title + seq![';'] + body),
            post,
        ),
    ensures
        crate::host::notification_queued(pre, title, body, post),
{
    reveal_strlit("notify");
    let kind = "notify"@;
    assert(kind[0] == 'n' && kind[1] == 'o' && kind[2] == 't' && kind[3] == 'i' && kind[4] == 'f'
        && kind[5] == 'y');
    assert forall|i: int| 0 <= i < kind.len() implies #[trigger] kind[i] != ';' by {
        assert(i == 0 || i == 1 || i == 2 || i == 3 || i == 4 || i == 5);
    }
    texts_are_split_at_the_first_separator(kind, ';', title + seq![';'] + body);
    texts_are_split_at_the_first_separator(title, ';', body);
}

} // verus!
