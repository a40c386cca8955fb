//! Shell-integration packets: command lifecycle marks with metadata.

use vstd::prelude::*;
use vstd::utf8::decode_utf8;
use vstd::utf8::encode_utf8;
use vstd::utf8::valid_utf8;

use crate::fields::equals;
use crate::fields::equals_ignoring_case;
use crate::fields::hex_digit;
use crate::fields::hex_value;
use crate::fields::parse_i32;
use crate::fields::parse_u64;
use crate::fields::same_ignoring_case;
use crate::fields::signed_value;
use crate::fields::split;
use crate::fields::split_fields;
use crate::fields::split_first;
use crate::fields::split_once;
use crate::fields::texts;
use crate::fields::trim;
use crate::fields::trimmed;
use crate::fields::unsigned_value;
use crate::text::chars_of;
use crate::text::string_of;

verus! {

/// Longest command text that is kept, in bytes.
pub const MAX_OSC_133_COMMAND_BYTES: usize = 16384;

/// Longest execution id, in bytes.
pub const MAX_OSC_133_ID_BYTES: usize = 1024;

/// Longest working directory, in bytes.
pub const MAX_OSC_133_CWD_BYTES: usize = 4096;

/// Longest session id, in bytes.
pub const MAX_OSC_133_SESSION_ID_BYTES: usize = 128;

/// Why a percent-encoded field was refused.
#[derive(Clone, Copy, Debug, PartialEq, Eq, Structural)]
pub enum Osc133DecodeError {
    MalformedPercentEncoding,
    TooLong,
    InvalidUtf8,
}

/// `String::from_utf8` of std: the text that the bytes encode, or nothing
/// where they are not valid UTF-8.
#[verifier::external_body]
pub(crate) fn string_from_utf8(bytes: Vec<u8>) -> (text: Option<String>)
    ensures
        match text {
            Some(text) => encode_utf8(text@) == bytes@,
            None => !valid_utf8(bytes@),
        },
{
    String::from_utf8(bytes).ok()
}

/// The byte that a percent-encoded text continues with at `i`, and where it
/// goes on; nothing where an escape is malformed.
pub open spec fn percent_byte(bytes: Seq<u8>, i: int) -> Option<(u8, int)> {
    if bytes[i] != 0x25 {
        Some((bytes[i], i + 1))
    } else if i + 2 >= bytes.len() {
        None
    } else {
        match (hex_value(bytes[i + 1] as char), hex_value(bytes[i + 2] as char)) {
            (Some(high), Some(low)) => Some(((high * 16 + low) as u8, i + 3)),
            _ => None,
        }
    }
}

/// The bytes that `bytes` encodes from `i` on, behind those already decoded.
/// The first malformed escape or byte beyond the limit decides the error.
pub open spec fn percent_bytes(bytes: Seq<u8>, i: int, decoded: Seq<u8>, max: int) -> Result<
    Seq<u8>,
    Osc133DecodeError,
>
    decreases bytes.len() - i,
{
    if i >= bytes.len() {
        Ok(decoded)
    } else {
        match percent_byte(bytes, i) {
            None => Err(Osc133DecodeError::MalformedPercentEncoding),
            Some((byte, next)) => if next <= i || decoded.len() == max {
                Err(Osc133DecodeError::TooLong)
            } else {
                percent_bytes(bytes, next, decoded.push(byte), max)
            },
        }
    }
}

/// What decoding a percent-encoded field of at most `max` bytes gives.
pub open spec fn percent_value(value: Seq<char>, max: int) -> Result<Seq<char>, Osc133DecodeError> {
    match percent_bytes(encode_utf8(value), 0, Seq::empty(), max) {
        Err(error) => Err(error),
        Ok(bytes) => if valid_utf8(bytes) {
            Ok(decode_utf8(bytes))
        } else {
            Err(Osc133DecodeError::InvalidUtf8)
        },
    }
}

/// The text of a decoded field.
pub open spec fn decoded_text(decoded: Result<String, Osc133DecodeError>) -> Result<
    Seq<char>,
    Osc133DecodeError,
> {
    match decoded {
        Ok(text) => Ok(text@),
        Err(error) => Err(error),
    }
}

/// Decodes a percent-encoded field of at most `max_bytes` bytes. Never yields
/// a part of the value.
pub fn percent_decode_osc_133(value: &str, max_bytes: usize) -> (decoded: Result<
    String,
    Osc133DecodeError,
>)
    ensures
        decoded_text(decoded) == percent_value(value@, max_bytes as int),
{
    let bytes = value.as_bytes();
    let total: usize = bytes.len();
    let mut out: Vec<u8> = Vec::new();
    let mut i: usize = 0;
    while i < total
        invariant
            i <= total,
            total == bytes@.len(),
            bytes@ == encode_utf8(value@),
            out@.len() <= max_bytes,
            percent_bytes(bytes@, 0, Seq::empty(), max_bytes as int) == percent_bytes(
                bytes@,
                i as int,
                out@,
                max_bytes as int,
            ),
        decreases total - i,
    {
        let byte: u8;
        let next: usize;
        if bytes[i] == 0x25 {
            if total < 3 || i >= total - 2 {
                return Err(Osc133DecodeError::MalformedPercentEncoding);
            }
            match (hex_digit(bytes[i + 1] as char), hex_digit(bytes[i + 2] as char)) {
                (Some(high), Some(low)) => {
                    byte = high * 16 + low;
                    next = i + 3;
                },
                _ => {
                    return Err(Osc133DecodeError::MalformedPercentEncoding);
                },
            }
        } else {
            byte = bytes[i];
            next = i + 1;
        }
        if out.len() == max_bytes {
            return Err(Osc133DecodeError::TooLong);
        }
        out.push(byte);
        i = next;
    }
    let ghost expected = out@;
    match string_from_utf8(out) {
        Some(text) => {
            proof {
                vstd::utf8::encode_utf8_valid_utf8(text@);
                vstd::utf8::encode_utf8_decode_utf8(text@);
            }
            Ok(text)
        },
        None => Err(Osc133DecodeError::InvalidUtf8),
    }
}

/// Control characters: Unicode category Cc.
pub open spec fn is_control(c: char) -> bool {
    let v = c as u32;
    v <= 0x1f || 0x7f <= v <= 0x9f
}

/// Characters that can make a text read as another one: bidirectional
/// controls, invisible and formatting characters.
pub open spec fn is_visual_spoofing(c: char) -> bool {
    let v = c as u32;
    ||| v == 0xad
    ||| v == 0x34f
    ||| v == 0x61c
    ||| 0x115f <= v <= 0x1160
    ||| 0x17b4 <= v <= 0x17b5
    ||| 0x180b <= v <= 0x180f
    ||| 0x200b <= v <= 0x200f
    ||| 0x2028 <= v <= 0x202e
    ||| 0x2060 <= v <= 0x206f
    ||| v == 0x3164
    ||| 0xfe00 <= v <= 0xfe0f
    ||| v == 0xfeff
    ||| v == 0xffa0
    ||| 0xfff0 <= v <= 0xfffb
    ||| 0xe0000 <= v <= 0xe0fff
}

/// Whether a character may stand in text that is shown to the user.
pub open spec fn is_displayable(c: char) -> bool {
    !is_control(c) && !is_visual_spoofing(c)
}

/// Whether a character may stand in text that is shown to the user.
pub fn displayable(c: char) -> (yes: bool)
    ensures
        yes == is_displayable(c),
{
    let v: u32 = c as u32;
    let control = v <= 0x1f || (0x7f <= v && v <= 0x9f);
    let spoofing = v == 0xad || v == 0x34f || v == 0x61c || (0x115f <= v && v <= 0x1160) || (0x17b4
        <= v && v <= 0x17b5) || (0x180b <= v && v <= 0x180f) || (0x200b <= v && v <= 0x200f) || (
    0x2028 <= v && v <= 0x202e) || (0x2060 <= v && v <= 0x206f) || v == 0x3164 || (0xfe00 <= v && v
        <= 0xfe0f) || v == 0xfeff || v == 0xffa0 || (0xfff0 <= v && v <= 0xfffb) || (0xe0000 <= v
        && v <= 0xe0fff);
    !control && !spoofing
}

/// Whether every character may be shown to the user.
pub open spec fn all_displayable(text: Seq<char>) -> bool {
    forall|i: int| 0 <= i < text.len() ==> is_displayable(#[trigger] text[i])
}

/// Whether a text is not empty and may be shown to the user.
pub fn is_presentable(text: &str) -> (yes: bool)
    ensures
        yes == (text@.len() > 0 && all_displayable(text@)),
{
    let chars = chars_of(text);
    if chars.len() == 0 {
        return false;
    }
    let mut i: usize = 0;
    while i < chars.len()
        invariant
            i <= chars@.len(),
            chars@ == text@,
            forall|k: int| 0 <= k < i ==> is_displayable(#[trigger] chars@[k]),
        decreases chars.len() - i,
    {
        if !displayable(chars[i]) {
            assert(!is_displayable(text@[i as int]));
            return false;
        }
        i = i + 1;
    }
    true
}

/// A decoded field that is not empty and may be shown to the user.
pub open spec fn presentable_value(value: Seq<char>, max: int) -> Option<Seq<char>> {
    match percent_value(value, max) {
        Ok(text) => if text.len() > 0 && all_displayable(text) {
            Some(text)
        } else {
            None
        },
        Err(_) => None,
    }
}

/// The execution id that a field names, where it is a usable one.
pub open spec fn valid_id(value: Seq<char>) -> Option<Seq<char>> {
    presentable_value(value, MAX_OSC_133_ID_BYTES as int)
}

/// The working directory that a field names, where it is one that may be
/// recorded.
pub open spec fn valid_cwd(value: Seq<char>) -> Option<Seq<char>> {
    presentable_value(value, MAX_OSC_133_CWD_BYTES as int)
}

/// The text of an optional string.
pub open spec fn text_of(text: Option<String>) -> Option<Seq<char>> {
    match text {
        Some(text) => Some(text@),
        None => None,
    }
}

/// Decodes a field that must not be empty and may be shown to the user.
fn decode_presentable(value: &str, max_bytes: usize) -> (text: Option<String>)
    ensures
        text_of(text) == presentable_value(value@, max_bytes as int),
{
    match percent_decode_osc_133(value, max_bytes) {
        Ok(text) => if is_presentable(text.as_str()) {
            Some(text)
        } else {
            None
        },
        Err(_) => None,
    }
}

/// Whether `c` may stand in a session id.
pub open spec fn is_session_char(c: char) -> bool {
    ('a' <= c && c <= 'z') || ('A' <= c && c <= 'Z') || ('0' <= c && c <= '9') || c == '-' || c
        == '_'
}

/// Session ids: letters, digits, dashes and underscores, not empty and within
/// the size limit.
pub open spec fn is_session_id(text: Seq<char>) -> bool {
    0 < text.len() <= MAX_OSC_133_SESSION_ID_BYTES && forall|i: int|
        0 <= i < text.len() ==> is_session_char(#[trigger] text[i])
}

/// Whether a text is a session id.
pub fn valid_session_id(text: &Vec<char>) -> (yes: bool)
    ensures
        yes == is_session_id(text@),
{
    if text.len() == 0 || text.len() > MAX_OSC_133_SESSION_ID_BYTES {
        return false;
    }
    let mut i: usize = 0;
    while i < text.len()
        invariant
            i <= text@.len(),
            forall|k: int| 0 <= k < i ==> is_session_char(#[trigger] text@[k]),
        decreases text.len() - i,
    {
        let c = text[i];
        if !(('a' <= c && c <= 'z') || ('A' <= c && c <= 'Z') || ('0' <= c && c <= '9') || c == '-'
            || c == '_') {
            assert(!is_session_char(text@[i as int]));
            return false;
        }
        i = i + 1;
    }
    true
}

/// Decodes a field that names an execution.
pub fn valid_osc_133_id(value: &str) -> (id: Option<String>)
    ensures
        text_of(id) == valid_id(value@),
{
    decode_presentable(value, MAX_OSC_133_ID_BYTES)
}

/// Decodes a field that names a working directory.
pub fn decode_osc_133_cwd(value: &str) -> (cwd: Option<String>)
    ensures
        text_of(cwd) == valid_cwd(value@),
{
    decode_presentable(value, MAX_OSC_133_CWD_BYTES)
}

/// The values that a packet can carry at most once.
#[derive(Clone, Copy, Debug, PartialEq, Eq, Structural)]
pub enum Slot {
    Id,
    SessionId,
    Sequence,
    StartedAt,
    Command,
    Cwd,
    Duration,
    Truncated,
    Exit,
}

/// The spellings of a slot.
pub open spec fn names(slot: Slot, key: Seq<char>) -> bool {
    match slot {
        Slot::Id => key == "id"@ || key == "jsh_id"@ || key == "execution_id"@ || key
            == "command_id"@,
        Slot::SessionId => key == "session_id"@,
        Slot::Sequence => key == "seq"@,
        Slot::StartedAt => key == "started_at_ms"@,
        Slot::Command => key == "cmdline_url"@ || key == "command_url"@ || key == "command"@ || key
            == "cmdline"@,
        Slot::Cwd => key == "cwd"@ || key == "cwd_url"@,
        Slot::Duration => key == "duration"@ || key == "duration_ms"@,
        Slot::Truncated => key == "cmd_truncated"@ || key == "command_truncated"@,
        Slot::Exit => key == "exit"@ || key == "exit_code"@ || key == "exit_status"@,
    }
}

/// Whether a key spells a slot.
fn is_name(slot: Slot, key: &Vec<char>) -> (yes: bool)
    ensures
        yes == names(slot, key@),
{
    match slot {
        Slot::Id => equals(key, "id") || equals(key, "jsh_id") || equals(key, "execution_id")
            || equals(key, "command_id"),
        Slot::SessionId => equals(key, "session_id"),
        Slot::Sequence => equals(key, "seq"),
        Slot::StartedAt => equals(key, "started_at_ms"),
        Slot::Command => equals(key, "cmdline_url") || equals(key, "command_url") || equals(
            key,
            "command",
        ) || equals(key, "cmdline"),
        Slot::Cwd => equals(key, "cwd") || equals(key, "cwd_url"),
        Slot::Duration => equals(key, "duration") || equals(key, "duration_ms"),
        Slot::Truncated => equals(key, "cmd_truncated") || equals(key, "command_truncated"),
        Slot::Exit => equals(key, "exit") || equals(key, "exit_code") || equals(
            key,
            "exit_status",
        ),
    }
}

/// The values given to a slot, in order.
pub open spec fn slot_values(fields: Seq<Seq<char>>, slot: Slot) -> Seq<Seq<char>>
    decreases fields.len(),
{
    if fields.len() == 0 {
        Seq::empty()
    } else {
        let before = slot_values(fields.drop_last(), slot);
        match split_first(fields.last(), '=') {
            Some((key, value)) => if names(slot, key) {
                before.push(value)
            } else {
                before
            },
            None => before,
        }
    }
}

/// The value of a slot; a slot given twice counts as absent.
pub open spec fn slot_value(fields: Seq<Seq<char>>, slot: Slot) -> Option<Seq<char>> {
    let values = slot_values(fields, slot);
    if values.len() == 1 {
        Some(values[0])
    } else {
        None
    }
}

/// The value of a slot, and how often it was given.
fn read_slot(fields: &Vec<Vec<char>>, slot: Slot) -> (read: (Option<Vec<char>>, usize))
    ensures
        read.1 == slot_values(texts(fields@), slot).len(),
        match read.0 {
            Some(value) => slot_value(texts(fields@), slot) == Some(value@),
            None => slot_value(texts(fields@), slot) is None,
        },
{
    let mut value: Option<Vec<char>> = None;
    let mut count: usize = 0;
    let mut i: usize = 0;
    let ghost all = texts(fields@);
    while i < fields.len()
        invariant
            i <= fields@.len(),
            all == texts(fields@),
            count <= i,
            count == slot_values(all.take(i as int), slot).len(),
            match value {
                Some(v) => count == 1 && slot_values(all.take(i as int), slot)[0] == v@,
                None => count != 1,
            },
        decreases fields.len() - i,
    {
        proof {
            assert(all.take(i + 1).drop_last() =~= all.take(i as int));
            assert(all.take(i + 1).last() == fields@[i as int]@);
        }
        if let Some((key, text)) = split_once(&fields[i], '=') {
            if is_name(slot, &key) {
                if count == 0 {
                    value = Some(text);
                } else {
                    value = None;
                }
                count = count + 1;
            }
        }
        i = i + 1;
    }
    assert(all.take(i as int) =~= all);
    (value, count)
}

/// What a truncation disclosure says; anything but a plain no counts as yes.
pub open spec fn says_truncated(value: Seq<char>) -> bool {
    let text = trimmed(value);
    text != "0"@ && !same_ignoring_case(text, "false"@)
}

/// Whether a packet discloses that its command is shortened. A repeated
/// disclosure counts as yes.
pub open spec fn discloses_truncation(fields: Seq<Seq<char>>) -> bool {
    let values = slot_values(fields, Slot::Truncated);
    values.len() > 1 || (values.len() == 1 && says_truncated(values[0]))
}

/// Whether a packet discloses that its command is shortened.
fn read_truncation(fields: &Vec<Vec<char>>) -> (yes: bool)
    ensures
        yes == discloses_truncation(texts(fields@)),
{
    let (value, count) = read_slot(fields, Slot::Truncated);
    if count > 1 {
        return true;
    }
    match value {
        Some(value) => {
            let text = trim(&value);
            !equals(&text, "0") && !equals_ignoring_case(&text, "false")
        },
        None => false,
    }
}

/// The outcome that a field attempts to report: a named one even where its
/// value is not a number, a bare one only where it is.
pub open spec fn exit_attempt(field: Seq<char>) -> Option<Option<int>> {
    match split_first(field, '=') {
        Some((key, value)) => if names(Slot::Exit, key) {
            Some(signed_value(trimmed(value)))
        } else {
            None
        },
        None => match signed_value(trimmed(field)) {
            Some(code) => Some(Some(code)),
            None => None,
        },
    }
}

/// The outcomes that a packet attempts to report, in order.
pub open spec fn exit_attempts(fields: Seq<Seq<char>>) -> Seq<Option<int>>
    decreases fields.len(),
{
    if fields.len() == 0 {
        Seq::empty()
    } else {
        let before = exit_attempts(fields.drop_last());
        match exit_attempt(fields.last()) {
            Some(code) => before.push(code),
            None => before,
        }
    }
}

/// The outcome of a packet: the single one attempted.
pub open spec fn exit_status(fields: Seq<Seq<char>>) -> Option<int> {
    let attempts = exit_attempts(fields);
    if attempts.len() == 1 {
        attempts[0]
    } else {
        None
    }
}

/// Whether an exit code is the expected one.
pub open spec fn same_code(code: Option<i32>, expected: Option<int>) -> bool {
    match (code, expected) {
        (Some(a), Some(b)) => a == b,
        (None, None) => true,
        _ => false,
    }
}

/// Reads the outcome of a packet.
pub fn parse_osc_133_exit_status(fields: &Vec<Vec<char>>) -> (code: Option<i32>)
    ensures
        same_code(code, exit_status(texts(fields@))),
{
    let mut seen = false;
    let mut parsed: Option<i32> = None;
    let mut i: usize = 0;
    let ghost all = texts(fields@);
    while i < fields.len()
        invariant
            i <= fields@.len(),
            all == texts(fields@),
            exit_attempts(all.take(i as int)).len() == if seen {
                1int
            } else {
                0
            },
            seen ==> same_code(parsed, exit_attempts(all.take(i as int))[0]),
            !seen ==> parsed is None,
        decreases fields.len() - i,
    {
        proof {
            assert(all.take(i + 1).drop_last() =~= all.take(i as int));
            assert(all.take(i + 1).last() == fields@[i as int]@);
        }
        let attempt: Option<Option<i32>> = match split_once(&fields[i], '=') {
            Some((key, value)) => if is_name(Slot::Exit, &key) {
                let text = trim(&value);
                Some(parse_i32(&text))
            } else {
                None
            },
            None => {
                let text = trim(&fields[i]);
                match parse_i32(&text) {
                    Some(code) => Some(Some(code)),
                    None => None,
                }
            },
        };
        if let Some(code) = attempt {
            if seen {
                proof {
                    assert(exit_attempts(all.take(i + 1)).len() == 2);
                    lemma_exit_attempts_grow(all, i + 1);
                }
                return None;
            }
            seen = true;
            parsed = code;
        }
        i = i + 1;
    }
    assert(all.take(i as int) =~= all);
    parsed
}

/// More fields never take back an attempt.
proof fn lemma_exit_attempts_grow(fields: Seq<Seq<char>>, n: int)
    requires
        0 <= n <= fields.len(),
    ensures
        exit_attempts(fields.take(n)).len() <= exit_attempts(fields).len(),
    decreases fields.len() - n,
{
    if n == fields.len() {
        assert(fields.take(n) =~= fields);
    } else {
        assert(fields.take(n + 1).drop_last() =~= fields.take(n));
        lemma_exit_attempts_grow(fields, n + 1);
    }
}

/// The start identity that a packet carries.
pub struct Osc133StartIdentity {
    pub session_id: Option<String>,
    pub seq: Option<u64>,
    pub started_at_ms: Option<u64>,
}

/// One packet, read.
pub struct Osc133Packet {
    pub kind: Vec<char>,
    pub id: Option<String>,
    pub command: Option<String>,
    pub cwd: Option<String>,
    pub command_truncated: bool,
    pub start_identity: Osc133StartIdentity,
    pub exit_code: Option<i32>,
    pub duration_ms: Option<u64>,
}

/// Whether an optional number is the expected one.
pub open spec fn same_number(number: Option<u64>, expected: Option<int>) -> bool {
    match (number, expected) {
        (Some(a), Some(b)) => a == b,
        (None, None) => true,
        _ => false,
    }
}

/// The number in a slot.
pub open spec fn slot_number(fields: Seq<Seq<char>>, slot: Slot) -> Option<int> {
    match slot_value(fields, slot) {
        Some(value) => unsigned_value(value, u64::MAX as int),
        None => None,
    }
}

/// The session id in a packet, where it is a valid one.
pub open spec fn slot_session_id(fields: Seq<Seq<char>>) -> Option<Seq<char>> {
    match slot_value(fields, Slot::SessionId) {
        Some(value) => match percent_value(value, MAX_OSC_133_SESSION_ID_BYTES as int) {
            Ok(text) => if is_session_id(text) {
                Some(text)
            } else {
                None
            },
            Err(_) => None,
        },
        None => None,
    }
}

impl Osc133Packet {
    /// The packet is what `payload` says: the mark, then its fields. Each slot
    /// counts only when given once, a shortened command is no command, and only
    /// a start mark carries a start identity.
    pub open spec fn reads(&self, payload: Seq<char>) -> bool {
        let parts = split_fields(payload, ';');
        let fields = parts.drop_first();
        let start = parts[0] == "C"@;
        &&& self.kind@ == parts[0]
        &&& text_of(self.id) == slot_value(fields, Slot::Id)
        &&& self.command_truncated == discloses_truncation(fields)
        &&& text_of(self.command) == if discloses_truncation(fields) {
            None
        } else {
            slot_value(fields, Slot::Command)
        }
        &&& text_of(self.cwd) == slot_value(fields, Slot::Cwd)
        &&& text_of(self.start_identity.session_id) == if start {
            slot_session_id(fields)
        } else {
            None
        }
        &&& same_number(
            self.start_identity.seq,
            if start {
                slot_number(fields, Slot::Sequence)
            } else {
                None
            },
        )
        &&& same_number(
            self.start_identity.started_at_ms,
            if start {
                slot_number(fields, Slot::StartedAt)
            } else {
                None
            },
        )
        &&& same_code(
            self.exit_code,
            if parts[0] == "D"@ {
                exit_status(fields)
            } else {
                None
            },
        )
        &&& same_number(
            self.duration_ms,
            match slot_value(fields, Slot::Duration) {
                Some(value) => unsigned_value(trimmed(value), u64::MAX as int),
                None => None,
            },
        )
    }
}

/// A slot as a string.
fn read_text(fields: &Vec<Vec<char>>, slot: Slot) -> (text: Option<String>)
    ensures
        text_of(text) == slot_value(texts(fields@), slot),
{
    match read_slot(fields, slot).0 {
        Some(value) => Some(string_of(&value)),
        None => None,
    }
}

/// A slot as a number.
fn read_number(fields: &Vec<Vec<char>>, slot: Slot) -> (number: Option<u64>)
    ensures
        same_number(number, slot_number(texts(fields@), slot)),
{
    match read_slot(fields, slot).0 {
        Some(value) => parse_u64(&value),
        None => None,
    }
}

/// The session id of a packet.
fn read_session_id(fields: &Vec<Vec<char>>) -> (id: Option<String>)
    ensures
        text_of(id) == slot_session_id(texts(fields@)),
{
    match read_text(fields, Slot::SessionId) {
        Some(value) => match percent_decode_osc_133(value.as_str(), MAX_OSC_133_SESSION_ID_BYTES) {
            Ok(text) => {
                let chars = chars_of(text.as_str());
                if valid_session_id(&chars) {
                    Some(text)
                } else {
                    None
                }
            },
            Err(_) => None,
        },
        None => None,
    }
}

/// Reads one packet.
pub fn parse_osc_133(payload: &Vec<char>) -> (packet: Osc133Packet)
    ensures
        packet.reads(payload@),
{
    let mut parts = split(payload, ';');
    let ghost all = texts(parts@);
    let kind = parts.remove(0);
    let fields = parts;
    assert(texts(fields@) =~= all.drop_first());
    let start = equals(&kind, "C");
    let finish = equals(&kind, "D");
    let command_truncated = read_truncation(&fields);
    let command = if command_truncated {
        None
    } else {
        read_text(&fields, Slot::Command)
    };
    let start_identity = if start {
        Osc133StartIdentity {
            session_id: read_session_id(&fields),
            seq: read_number(&fields, Slot::Sequence),
            started_at_ms: read_number(&fields, Slot::StartedAt),
        }
    } else {
        Osc133StartIdentity { session_id: None, seq: None, started_at_ms: None }
    };
    let exit_code = if finish {
        parse_osc_133_exit_status(&fields)
    } else {
        None
    };
    let duration_ms = match read_slot(&fields, Slot::Duration).0 {
        Some(value) => {
            let text = trim(&value);
            parse_u64(&text)
        },
        None => None,
    };
    Osc133Packet {
        kind,
        id: read_text(&fields, Slot::Id),
        command,
        cwd: read_text(&fields, Slot::Cwd),
        command_truncated,
        start_identity,
        exit_code,
        duration_ms,
    }
}

} // verus!
