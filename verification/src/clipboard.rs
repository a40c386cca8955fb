//! Clipboard access: what applications may write to the host's clipboard and
//! read from it.

use vstd::prelude::*;
use vstd::utf8::decode_utf8;
use vstd::utf8::encode_utf8;
use vstd::utf8::valid_utf8;

use crate::bounded_text::lemma_utf8_len_encodes;
use crate::bounded_text::utf8_len;
use crate::fields::equals;
use crate::fields::part;
use crate::fields::split;
use crate::fields::split_fields;
use crate::fields::split_first;
use crate::fields::split_once;
use crate::fields::starts_with;
use crate::fields::strip_prefix;
use crate::fields::texts;
use crate::host::fits_bytes;
use crate::host::HostState;
use crate::osc133::string_from_utf8;
use crate::osc133::text_of;
use crate::reports::append_ascii;
use crate::reports::append_chars;
use crate::reports::ascii_bytes;
use crate::text::chars_of;
use crate::text::string_of;

verus! {

/// A read of clipboard data of one kind.
#[derive(Debug, PartialEq, Eq)]
pub enum ClipboardReadKind {
    MimeData(String),
}

/// A clipboard read that waits for the host.
#[derive(Debug, PartialEq, Eq)]
pub struct ClipboardReadRequest {
    pub kind: ClipboardReadKind,
}

/// The right to read the clipboard once, given with a paste.
pub struct PendingPasteGrant {
    pub token: String,
    pub offered_mimes: Vec<String>,
    pub expires_at_ns: u64,
}

/// Most clipboard reads that wait for the host.
pub const MAX_PENDING_CLIPBOARD_REQUESTS: usize = 8;

/// Most kinds of clipboard data offered in one paste.
pub const MAX_OSC_5522_MIME_TYPES: usize = 64;

/// Longest name of a kind of clipboard data.
pub const MAX_OSC_5522_MIME_LEN: usize = 256;

/// How long a paste grant lasts, in nanoseconds.
pub const OSC_5522_PASTE_GRANT_TTL_NS: u64 = 10_000_000_000;

/// Most bytes that an application may put into the clipboard.
pub const OSC52_MAX_BYTES: usize = 102400;

/// Most bytes of base64 text that are decoded for the clipboard.
pub const OSC52_MAX_ENCODED_BYTES: usize = 136541;

/// What `Engine::decode` of the `base64` crate gives for a text under the
/// standard alphabet with padding.
pub uninterp spec fn base64_decoded(text: Seq<char>) -> Option<Seq<u8>>;

/// What `Engine::encode` of the `base64` crate gives for bytes under the
/// standard alphabet with padding.
pub uninterp spec fn base64_encoded(bytes: Seq<u8>) -> Seq<char>;

/// Whether a character belongs to the standard alphabet or is its padding.
pub open spec fn is_base64_char(c: char) -> bool {
    ||| 'A' <= c <= 'Z'
    ||| 'a' <= c <= 'z'
    ||| '0' <= c <= '9'
    ||| c == '+'
    ||| c == '/'
    ||| c == '='
}

/// Whether a text is made of the standard alphabet and its padding alone.
pub open spec fn is_base64(text: Seq<char>) -> bool {
    forall|i: int| 0 <= i < text.len() ==> is_base64_char(#[trigger] text[i])
}

/// The bytes of an optional vector.
pub open spec fn bytes_of(bytes: Option<Vec<u8>>) -> Option<Seq<u8>> {
    match bytes {
        Some(bytes) => Some(bytes@),
        None => None,
    }
}

/// `Engine::decode` of the `base64` crate with its `STANDARD` engine: the
/// decoded bytes, or nothing where the text is not valid base64. The result
/// depends on the text alone.
#[verifier::external_body]
fn base64_decode(text: &str) -> (bytes: Option<Vec<u8>>)
    ensures
        bytes_of(bytes) == base64_decoded(text@),
{
    base64::Engine::decode(&base64::engine::general_purpose::STANDARD, text).ok()
}

/// `Engine::encode` of the `base64` crate with its `STANDARD` engine. The
/// result depends on the bytes alone, is made of the letters, the digits, `+`,
/// `/` and the padding `=`, and decoding it with the same engine gives the
/// bytes back. The bound leaves out inputs whose encoded length does not fit
/// in `usize`, on which the crate panics.
#[verifier::external_body]
fn base64_encode(bytes: &[u8]) -> (text: String)
    requires
        bytes@.len() <= usize::MAX / 2,
    ensures
        text@ == base64_encoded(bytes@),
        is_base64(text@),
        base64_decoded(text@) == Some(bytes@),
{
    base64::Engine::encode(&base64::engine::general_purpose::STANDARD, bytes)
}

/// `Uuid::new_v4` of the `uuid` crate and its `Display`: a random identifier
/// in its hyphenated form, which is 36 ASCII characters. Nothing more is
/// claimed of it.
#[verifier::external_body]
pub(crate) fn new_token() -> (token: String)
    ensures
        token@.len() == 36,
        forall|i: int| 0 <= i < 36 ==> (#[trigger] token@[i] as u32) < 128,
{
    uuid::Uuid::new_v4().to_string()
}

/// The text that a base64 field holds.
pub open spec fn base64_text(value: Seq<char>) -> Option<Seq<char>> {
    match base64_decoded(value) {
        Some(bytes) => bytes_text(bytes),
        None => None,
    }
}

/// The text that bytes encode, where they are valid UTF-8.
pub open spec fn bytes_text(bytes: Seq<u8>) -> Option<Seq<char>> {
    if valid_utf8(bytes) {
        Some(decode_utf8(bytes))
    } else {
        None
    }
}

/// The text that bytes encode, where they are valid UTF-8.
pub fn text_of_bytes(bytes: Vec<u8>) -> (text: Option<String>)
    ensures
        text_of(text) == bytes_text(bytes@),
{
    match string_from_utf8(bytes) {
        Some(text) => {
            proof {
                vstd::utf8::encode_utf8_valid_utf8(text@);
                vstd::utf8::encode_utf8_decode_utf8(text@);
            }
            Some(text)
        },
        None => None,
    }
}

/// The text that a base64 field holds.
pub fn decode_base64(value: &Vec<char>) -> (text: Option<String>)
    ensures
        text_of(text) == base64_text(value@),
{
    let encoded = string_of(value);
    match base64_decode(encoded.as_str()) {
        Some(bytes) => text_of_bytes(bytes),
        None => None,
    }
}

/// What a clipboard command asks for.
pub enum ClipboardCommand {
    Nothing,
    Query,
    Store(Seq<char>),
}

/// What a clipboard command asks for, given what its data decodes to.
pub open spec fn clipboard_command(
    data: Option<Seq<char>>,
    decoded: Option<Seq<char>>,
) -> ClipboardCommand {
    match data {
        None => ClipboardCommand::Nothing,
        Some(data) => if data == "?"@ {
            ClipboardCommand::Query
        } else if data.len() == 0 || utf8_len(data) > OSC52_MAX_ENCODED_BYTES {
            ClipboardCommand::Nothing
        } else {
            match decoded {
                Some(text) => if utf8_len(text) <= OSC52_MAX_BYTES {
                    ClipboardCommand::Store(text)
                } else {
                    ClipboardCommand::Nothing
                },
                None => ClipboardCommand::Nothing,
            }
        },
    }
}

/// The data field of a clipboard command.
pub open spec fn clipboard_data(value: Seq<char>) -> Option<Seq<char>> {
    match split_first(value, ';') {
        Some((selection, data)) => Some(data),
        None => None,
    }
}

/// What a clipboard command does.
pub open spec fn clipboard_commanded(
    pre: HostState,
    command: ClipboardCommand,
    post: HostState,
) -> bool {
    match command {
        ClipboardCommand::Nothing => post == pre,
        ClipboardCommand::Query => post == (HostState {
            pending_osc52_clipboard_query: true,
            ..pre
        }),
        ClipboardCommand::Store(text) => {
            &&& post == (HostState {
                pending_osc52_clipboard_set: post.pending_osc52_clipboard_set,
                ..pre
            })
            &&& text_of(post.pending_osc52_clipboard_set) == Some(text)
        },
    }
}

impl HostState {
    /// Records a clipboard command whose data has been decoded.
    pub fn apply_osc_52(&mut self, data: &Vec<char>, decoded: Option<String>)
        ensures
            clipboard_commanded(
                *old(self),
                clipboard_command(Some(data@), text_of(decoded)),
                *final(self),
            ),
    {
        if equals(data, "?") {
            self.pending_osc52_clipboard_query = true;
        } else if data.len() > 0 && fits_bytes(data, OSC52_MAX_ENCODED_BYTES) {
            if let Some(text) = decoded {
                let chars = chars_of(text.as_str());
                if fits_bytes(&chars, OSC52_MAX_BYTES) {
                    self.pending_osc52_clipboard_set = Some(text);
                }
            }
        }
    }

    /// An application writes to the clipboard or asks what it holds.
    pub fn handle_osc_52(&mut self, value: &Vec<char>)
        ensures
            clipboard_commanded(
                *old(self),
                clipboard_command(
                    clipboard_data(value@),
                    match clipboard_data(value@) {
                        Some(data) => base64_text(data),
                        None => None,
                    },
                ),
                *final(self),
            ),
    {
        if let Some((_selection, data)) = split_once(value, ';') {
            if data.len() == 0 || !fits_bytes(&data, OSC52_MAX_ENCODED_BYTES) {
                proof {
                    reveal_strlit("?");
                    if data@ == "?"@ {
                        reveal_with_fuel(utf8_len, 3);
                    }
                }
                return ;
            }
            let decoded = decode_base64(&data);
            self.apply_osc_52(&data, decoded);
        }
    }
}

/// Whether a character can stand in the name of a kind of data.
pub open spec fn is_mime_char(c: char) -> bool {
    0x21 <= c as u32 <= 0x7e
}

/// Whether a text names a kind of data.
pub open spec fn is_mime(text: Seq<char>) -> bool {
    &&& 0 < text.len() <= MAX_OSC_5522_MIME_LEN
    &&& forall|i: int| 0 <= i < text.len() ==> is_mime_char(#[trigger] text[i])
}

/// Whether a text names a kind of data.
pub fn is_valid_osc_5522_mime(mime: &Vec<char>) -> (yes: bool)
    ensures
        yes == is_mime(mime@),
{
    if mime.len() == 0 || mime.len() > MAX_OSC_5522_MIME_LEN {
        return false;
    }
    let mut i: usize = 0;
    while i < mime.len()
        invariant
            i <= mime@.len(),
            forall|k: int| 0 <= k < i ==> is_mime_char(#[trigger] mime@[k]),
        decreases mime.len() - i,
    {
        let v: u32 = mime[i] as u32;
        if v < 0x21 || v > 0x7e {
            assert(!is_mime_char(mime@[i as int]));
            return false;
        }
        assert(is_mime_char(mime@[i as int]));
        i = i + 1;
    }
    true
}

/// The white space that separates requested kinds.
pub open spec fn is_request_space(c: char) -> bool {
    c == ' ' || c == '\t' || c == '\n' || c == '\r' || c == '\x0c'
}

/// The kind of data between `from` and `to` of a request, white space around
/// it left out; nothing where the request names none or several.
pub open spec fn requested_within(request: Seq<char>, from: int, to: int) -> Option<Seq<char>>
    decreases to - from,
{
    if from >= to {
        None
    } else if is_request_space(request[from]) {
        requested_within(request, from + 1, to)
    } else if is_request_space(request[to - 1]) {
        requested_within(request, from, to - 1)
    } else if is_mime(request.subrange(from, to)) {
        Some(request.subrange(from, to))
    } else {
        None
    }
}

/// The single kind of data that a request names.
pub open spec fn requested_mime(request: Seq<char>) -> Option<Seq<char>> {
    if request == "."@ {
        None
    } else {
        requested_within(request, 0, request.len() as int)
    }
}

/// The white space that separates requested kinds.
fn is_request_separator(c: char) -> (yes: bool)
    ensures
        yes == is_request_space(c),
{
    c == ' ' || c == '\t' || c == '\n' || c == '\r' || c == '\x0c'
}

/// The single kind of data that a request names.
fn parse_request(request: &Vec<char>) -> (mime: Option<Vec<char>>)
    ensures
        match (requested_mime(request@), mime) {
            (Some(expected), Some(mime)) => expected == mime@,
            (None, None) => true,
            _ => false,
        },
{
    if equals(request, ".") {
        return None;
    }
    let mut from: usize = 0;
    let mut to: usize = request.len();
    while from < to && is_request_separator(request[from])
        invariant
            from <= to == request@.len(),
            requested_within(request@, 0, request@.len() as int) == requested_within(
                request@,
                from as int,
                to as int,
            ),
        decreases to - from,
    {
        from = from + 1;
    }
    while from < to && is_request_separator(request[to - 1])
        invariant
            from <= to <= request@.len(),
            from < to ==> !is_request_space(request@[from as int]),
            requested_within(request@, 0, request@.len() as int) == requested_within(
                request@,
                from as int,
                to as int,
            ),
        decreases to - from,
    {
        to = to - 1;
    }
    if from >= to {
        return None;
    }
    let mime = part(request, from, to);
    if is_valid_osc_5522_mime(&mime) {
        Some(mime)
    } else {
        None
    }
}

/// What follows `prefix` in the last field that starts with it.
pub open spec fn last_value(fields: Seq<Seq<char>>, prefix: Seq<char>) -> Option<Seq<char>>
    decreases fields.len(),
{
    if fields.len() == 0 {
        None
    } else if starts_with(fields.last(), prefix) {
        Some(fields.last().skip(prefix.len() as int))
    } else {
        last_value(fields.drop_last(), prefix)
    }
}

/// The characters of an optional vector.
pub open spec fn chars_of_option(chars: Option<Vec<char>>) -> Option<Seq<char>> {
    match chars {
        Some(chars) => Some(chars@),
        None => None,
    }
}

/// What follows `prefix` in the last field that starts with it.
fn find_last_value(fields: &Vec<Vec<char>>, prefix: &str) -> (value: Option<Vec<char>>)
    ensures
        chars_of_option(value) == last_value(texts(fields@), prefix@),
{
    let ghost list = texts(fields@);
    let mut i: usize = fields.len();
    assert(list.take(i as int) =~= list);
    while i > 0
        invariant
            i <= fields@.len(),
            list == texts(fields@),
            last_value(list, prefix@) == last_value(list.take(i as int), prefix@),
        decreases i,
    {
        assert(list.take(i as int).last() == fields@[i - 1]@);
        assert(list.take(i as int).drop_last() =~= list.take(i - 1));
        match strip_prefix(&fields[i - 1], prefix) {
            Some(rest) => {
                return Some(rest);
            },
            None => {},
        }
        i = i - 1;
    }
    None
}

/// What a read of the clipboard comes to.
pub enum ReadDecision {
    /// The message is no read.
    Ignored,
    /// The read is refused and a grant stays as it is.
    Refused,
    /// The read is refused and any grant ends.
    RefusedForGood,
    /// The grant is used up by a read of this kind of data.
    Granted(Vec<char>),
}

/// The fields of a read, decoded.
pub struct ReadModel {
    pub is_read: bool,
    pub password: Option<Seq<char>>,
    pub name: Option<Seq<char>>,
    pub request: Option<Seq<char>>,
}

/// What a base64 field holds, where there is one.
pub open spec fn field_text(value: Option<Seq<char>>) -> Option<Seq<char>> {
    match value {
        Some(value) => base64_text(value),
        None => None,
    }
}

/// The fields of a message.
pub open spec fn read_model(metadata: Seq<char>, payload: Option<Seq<char>>) -> ReadModel {
    let fields = split_fields(metadata, ':');
    ReadModel {
        is_read: last_value(fields, "type="@) == Some("read"@),
        password: field_text(last_value(fields, "pw="@)),
        name: field_text(last_value(fields, "name="@)),
        request: field_text(payload),
    }
}

/// Whether a list of strings holds a text.
pub open spec fn offers(list: Seq<String>, text: Seq<char>) -> bool {
    exists|i: int| 0 <= i < list.len() && (#[trigger] list[i])@ == text
}

/// Whether a read is the one that a grant allows.
pub open spec fn grant_matches(grant: PendingPasteGrant, read: ReadModel) -> bool {
    read.password == Some(grant.token@) && read.name == Some("Paste event"@)
}

/// Whether a message is decided as `decision` says.
pub open spec fn read_decided(
    read: ReadModel,
    enabled: bool,
    grant: Option<PendingPasteGrant>,
    now_ns: u64,
    decision: ReadDecision,
) -> bool {
    let mime = match read.request {
        Some(request) => requested_mime(request),
        None => None,
    };
    if !read.is_read {
        decision is Ignored
    } else {
        match mime {
            None => decision is Refused,
            Some(mime) => if !enabled {
                decision is RefusedForGood
            } else {
                match grant {
                    None => decision is Refused,
                    Some(grant) => if now_ns >= grant.expires_at_ns {
                        decision is RefusedForGood
                    } else if !grant_matches(grant, read) {
                        decision is Refused
                    } else if !offers(grant.offered_mimes@, mime) {
                        decision is RefusedForGood
                    } else {
                        decision matches ReadDecision::Granted(kind) && kind@ == mime
                    },
                }
            },
        }
    }
}

/// The fields of a read, decoded.
pub struct ClipboardRead {
    pub is_read: bool,
    pub password: Option<String>,
    pub name: Option<String>,
    pub request: Option<String>,
}

impl View for ClipboardRead {
    type V = ReadModel;

    open spec fn view(&self) -> ReadModel {
        ReadModel {
            is_read: self.is_read,
            password: text_of(self.password),
            name: text_of(self.name),
            request: text_of(self.request),
        }
    }
}

/// Whether an optional string holds a text.
fn holds_text(value: &Option<String>, text: &Vec<char>) -> (yes: bool)
    ensures
        yes == (text_of(*value) == Some(text@)),
{
    match value {
        Some(value) => equals(text, value.as_str()),
        None => false,
    }
}

/// Whether a list of strings holds a text.
fn list_offers(list: &Vec<String>, text: &Vec<char>) -> (yes: bool)
    ensures
        yes == offers(list@, text@),
{
    let mut i: usize = 0;
    while i < list.len()
        invariant
            i <= list@.len(),
            forall|k: int| 0 <= k < i ==> (#[trigger] list@[k])@ != text@,
        decreases list.len() - i,
    {
        if equals(text, list[i].as_str()) {
            assert(list@[i as int]@ == text@);
            return true;
        }
        i = i + 1;
    }
    false
}

/// Decides a read of the clipboard.
pub fn decide_read(
    read: &ClipboardRead,
    enabled: bool,
    grant: &Option<PendingPasteGrant>,
    now_ns: u64,
) -> (decision: ReadDecision)
    ensures
        read_decided(read@, enabled, *grant, now_ns, decision),
{
    if !read.is_read {
        return ReadDecision::Ignored;
    }
    let mime = match &read.request {
        Some(request) => {
            let chars = chars_of(request.as_str());
            parse_request(&chars)
        },
        None => None,
    };
    match mime {
        None => ReadDecision::Refused,
        Some(mime) => {
            if !enabled {
                return ReadDecision::RefusedForGood;
            }
            match grant {
                None => ReadDecision::Refused,
                Some(grant) => {
                    let token = chars_of(grant.token.as_str());
                    let event = chars_of("Paste event");
                    if now_ns >= grant.expires_at_ns {
                        ReadDecision::RefusedForGood
                    } else if !holds_text(&read.password, &token) || !holds_text(
                        &read.name,
                        &event,
                    ) {
                        ReadDecision::Refused
                    } else if !list_offers(&grant.offered_mimes, &mime) {
                        ReadDecision::RefusedForGood
                    } else {
                        ReadDecision::Granted(mime)
                    }
                },
            }
        },
    }
}

/// The status message of a refused or postponed read.
pub open spec fn status_reply(status: Seq<char>) -> Seq<u8> {
    ascii_bytes("\x1b]5522;"@ + status + "\x1b\\"@)
}

/// What a decided read does.
pub open spec fn read_answered(pre: HostState, decision: ReadDecision, post: HostState) -> bool {
    &&& post == (HostState {
        output_buffer: post.output_buffer,
        pending_paste_grant: post.pending_paste_grant,
        pending_clipboard_requests: post.pending_clipboard_requests,
        ..pre
    })
    &&& match decision {
        ReadDecision::Ignored => post == pre,
        ReadDecision::Refused => {
            &&& post.output_buffer@ == pre.output_buffer@ + status_reply(
                "type=read:status=EPERM"@,
            )
            &&& post.pending_paste_grant == pre.pending_paste_grant
            &&& post.pending_clipboard_requests == pre.pending_clipboard_requests
        },
        ReadDecision::RefusedForGood => {
            &&& post.output_buffer@ == pre.output_buffer@ + status_reply(
                "type=read:status=EPERM"@,
            )
            &&& post.pending_paste_grant is None
            &&& post.pending_clipboard_requests == pre.pending_clipboard_requests
        },
        ReadDecision::Granted(mime) => {
            &&& post.pending_paste_grant is None
            &&& if pre.pending_clipboard_requests@.len() >= MAX_PENDING_CLIPBOARD_REQUESTS {
                &&& post.output_buffer@ == pre.output_buffer@ + status_reply(
                    "type=read:status=EBUSY"@,
                )
                &&& post.pending_clipboard_requests == pre.pending_clipboard_requests
            } else {
                &&& post.output_buffer == pre.output_buffer
                &&& post.pending_clipboard_requests@.len()
                    == pre.pending_clipboard_requests@.len() + 1
                &&& post.pending_clipboard_requests@.drop_last()
                    == pre.pending_clipboard_requests@
                &&& post.pending_clipboard_requests@.last().kind matches ClipboardReadKind::MimeData(
                    kind,
                ) && kind@ == mime@
            }
        },
    }
}

impl HostState {
    /// Appends a status message.
    fn append_osc_5522_status(&mut self, status: &str)
        ensures
            *final(self) == (HostState { output_buffer: final(self).output_buffer, ..*old(self) }),
            final(self).output_buffer@ == old(self).output_buffer@ + status_reply(status@),
    {
        let mut text: Vec<char> = Vec::new();
        append_chars(&mut text, "\x1b]5522;");
        append_chars(&mut text, status);
        append_chars(&mut text, "\x1b\\");
        assert(text@ =~= "\x1b]5522;"@ + status@ + "\x1b\\"@);
        self.reply(&text);
    }

    /// Queues a read for the host, unless too many wait already.
    fn queue_clipboard_request(&mut self, mime: &Vec<char>)
        ensures
            *final(self) == (HostState {
                output_buffer: final(self).output_buffer,
                pending_clipboard_requests: final(self).pending_clipboard_requests,
                ..*old(self)
            }),
            if old(self).pending_clipboard_requests@.len() >= MAX_PENDING_CLIPBOARD_REQUESTS {
                &&& final(self).output_buffer@ == old(self).output_buffer@ + status_reply(
                    "type=read:status=EBUSY"@,
                )
                &&& final(self).pending_clipboard_requests == old(self).pending_clipboard_requests
            } else {
                &&& final(self).output_buffer == old(self).output_buffer
                &&& final(self).pending_clipboard_requests@.len() == old(
                    self,
                ).pending_clipboard_requests@.len() + 1
                &&& final(self).pending_clipboard_requests@.drop_last() == old(
                    self,
                ).pending_clipboard_requests@
                &&& final(self).pending_clipboard_requests@.last().kind
                    matches ClipboardReadKind::MimeData(kind) && kind@ == mime@
            },
    {
        if self.pending_clipboard_requests.len() >= MAX_PENDING_CLIPBOARD_REQUESTS {
            self.append_osc_5522_status("type=read:status=EBUSY");
        } else {
            let kind = ClipboardReadKind::MimeData(string_of(mime));
            self.pending_clipboard_requests.push(ClipboardReadRequest { kind });
            assert(self.pending_clipboard_requests@.drop_last() =~= old(
                self,
            ).pending_clipboard_requests@);
        }
    }

    /// Carries out a decided read.
    pub fn answer_read(&mut self, decision: ReadDecision)
        ensures
            read_answered(*old(self), decision, *final(self)),
    {
        match decision {
            ReadDecision::Ignored => {},
            ReadDecision::Refused => self.append_osc_5522_status("type=read:status=EPERM"),
            ReadDecision::RefusedForGood => {
                self.pending_paste_grant = None;
                self.append_osc_5522_status("type=read:status=EPERM");
            },
            ReadDecision::Granted(mime) => {
                self.pending_paste_grant = None;
                self.queue_clipboard_request(&mime);
            },
        }
    }

    /// An application asks for clipboard data under a paste grant.
    pub fn handle_osc_5522(
        &mut self,
        metadata: &Vec<char>,
        payload: &Option<Vec<char>>,
        enabled: bool,
        now_ns: u64,
    )
        ensures
            exists|decision: ReadDecision| #[trigger]
                read_decided(
                    read_model(metadata@, chars_of_option(*payload)),
                    enabled,
                    old(self).pending_paste_grant,
                    now_ns,
                    decision,
                ) && read_answered(*old(self), decision, *final(self)),
    {
        let read = parse_read(metadata, payload);
        let decision = decide_read(&read, enabled, &self.pending_paste_grant, now_ns);
        self.answer_read(decision);
    }
}

/// What a base64 field holds, where there is one.
fn decode_field(value: &Option<Vec<char>>) -> (text: Option<String>)
    ensures
        text_of(text) == field_text(chars_of_option(*value)),
{
    match value {
        Some(value) => decode_base64(value),
        None => None,
    }
}

/// Decodes the fields of a message.
fn parse_read(metadata: &Vec<char>, payload: &Option<Vec<char>>) -> (read: ClipboardRead)
    ensures
        read@ == read_model(metadata@, chars_of_option(*payload)),
{
    let fields = split(metadata, ':');
    let kind = find_last_value(&fields, "type=");
    let is_read = match &kind {
        Some(kind) => equals(kind, "read"),
        None => false,
    };
    let password = find_last_value(&fields, "pw=");
    let name = find_last_value(&fields, "name=");
    ClipboardRead {
        is_read,
        password: decode_field(&password),
        name: decode_field(&name),
        request: decode_field(payload),
    }
}

/// The texts of a list of strings.
pub open spec fn string_texts(list: Seq<String>) -> Seq<Seq<char>> {
    Seq::new(list.len(), |i: int| list[i]@)
}

/// The usable kinds of data of a list, each once, up to the most that are
/// offered.
pub open spec fn sanitized_mimes(list: Seq<Seq<char>>) -> Seq<Seq<char>>
    decreases list.len(),
{
    if list.len() == 0 {
        Seq::empty()
    } else {
        let kept = sanitized_mimes(list.drop_last());
        if is_mime(list.last()) && !kept.contains(list.last()) && kept.len()
            < MAX_OSC_5522_MIME_TYPES {
            kept.push(list.last())
        } else {
            kept
        }
    }
}

/// The usable kinds of data of a list.
fn sanitized_osc_5522_mimes(mime_types: &[String]) -> (kept: Vec<String>)
    ensures
        string_texts(kept@) == sanitized_mimes(string_texts(mime_types@)),
        forall|i: int| 0 <= i < kept@.len() ==> is_mime((#[trigger] kept@[i])@),
{
    let total: usize = mime_types.len();
    let ghost list = string_texts(mime_types@);
    let mut kept: Vec<String> = Vec::new();
    let mut i: usize = 0;
    assert(list.take(0) =~= Seq::<Seq<char>>::empty());
    assert(string_texts(kept@) =~= Seq::<Seq<char>>::empty());
    while i < total
        invariant
            i <= total,
            total == mime_types@.len(),
            list == string_texts(mime_types@),
            string_texts(kept@) == sanitized_mimes(list.take(i as int)),
            forall|k: int| 0 <= k < kept@.len() ==> is_mime((#[trigger] kept@[k])@),
        decreases total - i,
    {
        let chars = chars_of(mime_types[i].as_str());
        assert(list.take(i + 1).drop_last() =~= list.take(i as int));
        assert(list.take(i + 1).last() == chars@);
        let ghost before = kept@;
        assert(offers(kept@, chars@) == string_texts(kept@).contains(chars@)) by {
            if offers(kept@, chars@) {
                let k = choose|k: int| 0 <= k < kept@.len() && (#[trigger] kept@[k])@ == chars@;
                assert(string_texts(kept@)[k] == chars@);
            }
            if string_texts(kept@).contains(chars@) {
                let k = choose|k: int|
                    0 <= k < string_texts(kept@).len() && string_texts(kept@)[k] == chars@;
                assert(kept@[k]@ == chars@);
            }
        }
        if is_valid_osc_5522_mime(&chars) && !list_offers(&kept, &chars) && kept.len()
            < MAX_OSC_5522_MIME_TYPES {
            kept.push(string_of(&chars));
            assert(string_texts(kept@) =~= string_texts(before).push(chars@));
        }
        i = i + 1;
    }
    assert(list.take(i as int) =~= list);
    kept
}

/// The entry for one kind of data.
pub open spec fn mime_entry(mime: Seq<char>) -> Seq<u8> {
    ascii_bytes(
        "\x1b]5522;type=read:status=DATA:mime="@ + base64_encoded(encode_utf8(mime)) + "\x1b\\"@,
    )
}

/// The entries for a list of kinds of data.
pub open spec fn mime_entries(mimes: Seq<Seq<char>>) -> Seq<u8>
    decreases mimes.len(),
{
    if mimes.len() == 0 {
        Seq::empty()
    } else {
        mime_entries(mimes.drop_last()) + mime_entry(mimes.last())
    }
}

/// The message that offers kinds of data under a password.
pub open spec fn mime_list(mimes: Seq<Seq<char>>, password: Seq<char>) -> Seq<u8> {
    ascii_bytes(
        "\x1b]5522;type=read:status=OK:pw="@ + base64_encoded(encode_utf8(password)) + "\x1b\\"@,
    ) + mime_entries(mimes) + ascii_bytes("\x1b]5522;type=read:status=DONE\x1b\\"@)
}

/// An ASCII text takes one byte per character.
proof fn lemma_ascii_len(text: Seq<char>)
    requires
        forall|i: int| 0 <= i < text.len() ==> (#[trigger] text[i] as u32) < 128,
    ensures
        utf8_len(text) == text.len(),
    decreases text.len(),
{
    if text.len() > 0 {
        assert forall|i: int| 0 <= i < text.drop_last().len() implies (
        #[trigger] text.drop_last()[i] as u32) < 128 by {
            assert(text.drop_last()[i] == text[i]);
        }
        lemma_ascii_len(text.drop_last());
        assert((text.last() as u32) < 128);
    }
}

/// The base64 form of an ASCII text of bounded length.
fn encode_text(text: &String) -> (encoded: String)
    requires
        text@.len() <= MAX_OSC_5522_MIME_LEN,
        forall|i: int| 0 <= i < text@.len() ==> (#[trigger] text@[i] as u32) < 128,
    ensures
        encoded@ == base64_encoded(encode_utf8(text@)),
        is_base64(encoded@),
        base64_decoded(encoded@) == Some(encode_utf8(text@)),
{
    proof {
        lemma_ascii_len(text@);
        lemma_utf8_len_encodes(text@);
    }
    base64_encode(text.as_str().as_bytes())
}

/// Appends an encoded text between two literals.
fn append_encoded(output: &mut Vec<u8>, head: &str, encoded: &String)
    ensures
        final(output)@ == old(output)@ + ascii_bytes(head@ + encoded@ + "\x1b\\"@),
{
    let mut text: Vec<char> = Vec::new();
    append_chars(&mut text, head);
    append_chars(&mut text, encoded.as_str());
    append_chars(&mut text, "\x1b\\");
    assert(text@ =~= head@ + encoded@ + "\x1b\\"@);
    append_ascii(output, &text);
}

/// The message that offers kinds of data under a password.
fn build_osc_5522_mime_list(mime_types: &Vec<String>, password: &String) -> (output: Vec<u8>)
    requires
        forall|i: int| 0 <= i < mime_types@.len() ==> is_mime((#[trigger] mime_types@[i])@),
        password@.len() <= MAX_OSC_5522_MIME_LEN,
        forall|i: int| 0 <= i < password@.len() ==> (#[trigger] password@[i] as u32) < 128,
    ensures
        output@ == mime_list(string_texts(mime_types@), password@),
        is_base64(base64_encoded(encode_utf8(password@))),
        base64_text(base64_encoded(encode_utf8(password@))) == Some(password@),
{
    let mut output: Vec<u8> = Vec::new();
    let encoded = encode_text(password);
    proof {
        vstd::utf8::encode_utf8_valid_utf8(password@);
        vstd::utf8::encode_utf8_decode_utf8(password@);
    }
    append_encoded(&mut output, "\x1b]5522;type=read:status=OK:pw=", &encoded);
    let ghost head = output@;
    let ghost mimes = string_texts(mime_types@);
    assert(head =~= ascii_bytes(
        "\x1b]5522;type=read:status=OK:pw="@ + base64_encoded(encode_utf8(password@))
            + "\x1b\\"@,
    ));
    let mut i: usize = 0;
    assert(mimes.take(0) =~= Seq::<Seq<char>>::empty());
    assert(output@ =~= head + mime_entries(mimes.take(0)));
    while i < mime_types.len()
        invariant
            i <= mime_types@.len(),
            mimes == string_texts(mime_types@),
            forall|k: int| 0 <= k < mime_types@.len() ==> is_mime((#[trigger] mime_types@[k])@),
            output@ == head + mime_entries(mimes.take(i as int)),
        decreases mime_types.len() - i,
    {
        assert(is_mime(mime_types@[i as int]@));
        assert forall|k: int| 0 <= k < mime_types@[i as int]@.len() implies (
        #[trigger] mime_types@[i as int]@[k] as u32) < 128 by {
            assert(is_mime_char(mime_types@[i as int]@[k]));
        }
        let mime = encode_text(&mime_types[i]);
        append_encoded(&mut output, "\x1b]5522;type=read:status=DATA:mime=", &mime);
        assert(mimes.take(i + 1).drop_last() =~= mimes.take(i as int));
        assert(mimes.take(i + 1).last() == mime_types@[i as int]@);
        assert(output@ =~= head + mime_entries(mimes.take(i + 1)));
        i = i + 1;
    }
    assert(mimes.take(i as int) =~= mimes);
    let done = chars_of("\x1b]5522;type=read:status=DONE\x1b\\");
    append_ascii(&mut output, &done);
    output
}

/// What offering a paste under a token does and sends.
pub open spec fn paste_offered(
    pre: HostState,
    mimes: Seq<Seq<char>>,
    token: Seq<char>,
    now_ns: u64,
    post: HostState,
    output: Seq<u8>,
) -> bool {
    &&& post == (HostState { pending_paste_grant: post.pending_paste_grant, ..pre })
    &&& output == mime_list(sanitized_mimes(mimes), token)
    &&& match post.pending_paste_grant {
        Some(grant) => {
            &&& grant.token@ == token
            &&& string_texts(grant.offered_mimes@) == sanitized_mimes(mimes)
            &&& grant.expires_at_ns == if now_ns + OSC_5522_PASTE_GRANT_TTL_NS > u64::MAX {
                u64::MAX as int
            } else {
                now_ns + OSC_5522_PASTE_GRANT_TTL_NS
            }
        },
        None => false,
    }
    &&& is_base64(base64_encoded(encode_utf8(token)))
    &&& base64_text(base64_encoded(encode_utf8(token))) == Some(token)
}

impl HostState {
    /// Offers the kinds of data of a paste under a token that grants one read.
    pub fn offer_paste(&mut self, mime_types: &[String], token: String, now_ns: u64) -> (output:
        Vec<u8>)
        requires
            token@.len() <= MAX_OSC_5522_MIME_LEN,
            forall|i: int| 0 <= i < token@.len() ==> (#[trigger] token@[i] as u32) < 128,
        ensures
            paste_offered(
                *old(self),
                string_texts(mime_types@),
                token@,
                now_ns,
                *final(self),
                output@,
            ),
    {
        let offered_mimes = sanitized_osc_5522_mimes(mime_types);
        let output = build_osc_5522_mime_list(&offered_mimes, &token);
        let expires_at_ns: u64 = now_ns.saturating_add(OSC_5522_PASTE_GRANT_TTL_NS);
        self.pending_paste_grant = Some(PendingPasteGrant { token, offered_mimes, expires_at_ns });
        output
    }
}

/// A read that carries the password of an offer, the name of a paste event
/// and one offered kind is granted until the offer expires.
pub proof fn offered_paste_can_be_read(
    pre: HostState,
    mimes: Seq<Seq<char>>,
    token: Seq<char>,
    offered_ns: u64,
    mid: HostState,
    output: Seq<u8>,
    read: ReadModel,
    mime: Seq<char>,
    now_ns: u64,
    decision: ReadDecision,
)
    requires
        paste_offered(pre, mimes, token, offered_ns, mid, output),
        read.is_read,
        read.password == base64_text(base64_encoded(encode_utf8(token))),
        read.name == Some("Paste event"@),
        read.request == Some(mime),
        requested_mime(mime) == Some(mime),
        sanitized_mimes(mimes).contains(mime),
        now_ns < offered_ns + OSC_5522_PASTE_GRANT_TTL_NS,
        now_ns < u64::MAX,
        read_decided(read, true, mid.pending_paste_grant, now_ns, decision),
    ensures
        decision matches ReadDecision::Granted(kind) && kind@ == mime,
{
    let grant = mid.pending_paste_grant->0;
    let k = choose|k: int|
        0 <= k < sanitized_mimes(mimes).len() && sanitized_mimes(mimes)[k] == mime;
    assert(string_texts(grant.offered_mimes@)[k] == mime);
    assert(grant.offered_mimes@[k]@ == mime);
}

/// A grant serves one read: whatever is asked for after a granted read is
/// refused, until another paste is offered.
pub proof fn paste_grant_is_single_use(
    pre: HostState,
    granted: ReadDecision,
    mid: HostState,
    read: ReadModel,
    enabled: bool,
    now_ns: u64,
    decision: ReadDecision,
)
    requires
        granted is Granted,
        read_answered(pre, granted, mid),
        read_decided(read, enabled, mid.pending_paste_grant, now_ns, decision),
    ensures
        !(decision is Granted),
{
}

/// A text without separators is one field.
proof fn lemma_one_field(text: Seq<char>, separator: char)
    requires
        !text.contains(separator),
    ensures
        split_fields(text, separator) == seq![text],
    decreases text.len(),
{
    if text.len() == 0 {
        assert(text =~= Seq::<char>::empty());
    } else {
        let head = text.drop_last();
        assert(text[text.len() - 1] == text.last());
        assert forall|i: int| 0 <= i < head.len() implies head[i] != separator by {
            assert(text[i] == head[i]);
        }
        lemma_one_field(head, separator);
        assert(head.push(text.last()) =~= text);
        assert(split_fields(text, separator) =~= seq![text]);
    }
}

/// What follows a separator without another is a field of its own.
proof fn lemma_field_added(before: Seq<char>, field: Seq<char>, separator: char)
    requires
        !field.contains(separator),
    ensures
        split_fields(before.push(separator) + field, separator) == split_fields(
            before,
            separator,
        ).push(field),
    decreases field.len(),
{
    let all = before.push(separator) + field;
    let fields = split_fields(before, separator);
    if field.len() == 0 {
        assert(all =~= before.push(separator));
        assert(all.drop_last() =~= before);
        assert(field =~= Seq::<char>::empty());
    } else {
        let head = field.drop_last();
        assert(field[field.len() - 1] == field.last());
        assert forall|i: int| 0 <= i < head.len() implies head[i] != separator by {
            assert(field[i] == head[i]);
        }
        lemma_field_added(before, head, separator);
        assert(all.drop_last() =~= before.push(separator) + head);
        assert(all.last() == field.last());
        assert(head.push(field.last()) =~= field);
        let earlier = fields.push(head);
        assert(earlier.update(earlier.len() - 1, earlier.last().push(all.last())) =~= fields.push(
            field,
        ));
    }
}

/// The fields of the message that reads a paste.
proof fn lemma_paste_fields(password: Seq<char>, name: Seq<char>)
    requires
        !password.contains(':'),
        !name.contains(':'),
    ensures
        ({
            let fields = split_fields(
                "type=read:pw="@ + password + ":name="@ + name,
                ':',
            );
            &&& last_value(fields, "type="@) == Some("read"@)
            &&& last_value(fields, "pw="@) == Some(password)
            &&& last_value(fields, "name="@) == Some(name)
        }),
{
    reveal_strlit("type=read:pw=");
    reveal_strlit(":name=");
    reveal_strlit("type=");
    reveal_strlit("read");
    reveal_strlit("pw=");
    reveal_strlit("name=");
    let first = "type="@ + "read"@;
    let second = "pw="@ + password;
    let third = "name="@ + name;
    let message = "type=read:pw="@ + password + ":name="@ + name;
    assert(first =~= seq!['t', 'y', 'p', 'e', '=', 'r', 'e', 'a', 'd']);
    assert(message =~= (first.push(':') + second).push(':') + third);
    assert(!first.contains(':'));
    assert(!second.contains(':')) by {
        assert forall|i: int| 0 <= i < second.len() implies second[i] != ':' by {
            if i >= 3 {
                assert(second[i] == password[i - 3]);
            }
        }
    }
    assert(!third.contains(':')) by {
        assert forall|i: int| 0 <= i < third.len() implies third[i] != ':' by {
            if i >= 5 {
                assert(third[i] == name[i - 5]);
            }
        }
    }
    lemma_one_field(first, ':');
    lemma_field_added(first, second, ':');
    lemma_field_added(first.push(':') + second, third, ':');
    let fields = seq![first].push(second).push(third);
    assert(split_fields(message, ':') == fields);
    let two = fields.drop_last();
    let one = two.drop_last();
    assert(two =~= seq![first].push(second));
    assert(one =~= seq![first]);
    assert(fields.last() == third && two.last() == second && one.last() == first);
    assert(third[0] == 'n' && second[0] == 'p' && first[0] == 't');
    assert(!starts_with(third, "type="@)) by {
        assert("type="@[0] == 't');
        if starts_with(third, "type="@) {
            assert(third.take(5)[0] == third[0]);
        }
    }
    assert(!starts_with(second, "type="@)) by {
        if starts_with(second, "type="@) {
            assert(second.take(5)[0] == second[0]);
        }
    }
    assert(!starts_with(third, "pw="@)) by {
        if starts_with(third, "pw="@) {
            assert(third.take(3)[0] == third[0]);
        }
    }
    assert(first.take(5) =~= "type="@);
    assert(second.take(3) =~= "pw="@);
    assert(third.take(5) =~= "name="@);
    assert(first.skip(5) =~= "read"@);
    assert(second.skip(3) =~= password);
    assert(third.skip(5) =~= name);
    assert(last_value(one, "type="@) == Some("read"@));
    assert(last_value(two, "type="@) == Some("read"@));
    assert(last_value(fields, "type="@) == Some("read"@));
    assert(last_value(two, "pw="@) == Some(password));
    assert(last_value(fields, "pw="@) == Some(password));
    assert(last_value(fields, "name="@) == Some(name));
}

/// A paste that was offered can be read once: the message with its password,
/// the name of a paste event and an offered kind of data is granted until the
/// offer expires, and the same message is refused from then on.
pub proof fn offered_paste_is_read_once(
    pre: HostState,
    mimes: Seq<Seq<char>>,
    token: Seq<char>,
    offered_ns: u64,
    offered: HostState,
    output: Seq<u8>,
    name: Seq<char>,
    payload: Seq<char>,
    mime: Seq<char>,
    now_ns: u64,
    granted: ReadDecision,
    mid: HostState,
    later_ns: u64,
    refused: ReadDecision,
    post: HostState,
)
    requires
        paste_offered(pre, mimes, token, offered_ns, offered, output),
        !name.contains(':'),
        base64_text(name) == Some("Paste event"@),
        base64_text(payload) == Some(mime),
        requested_mime(mime) == Some(mime),
        sanitized_mimes(mimes).contains(mime),
        now_ns < offered_ns + OSC_5522_PASTE_GRANT_TTL_NS,
        now_ns < u64::MAX,
        offered.pending_clipboard_requests@.len() < MAX_PENDING_CLIPBOARD_REQUESTS,
        read_decided(
            read_model(
                "type=read:pw="@ + base64_encoded(encode_utf8(token)) + ":name="@ + name,
                Some(payload),
            ),
            true,
            offered.pending_paste_grant,
            now_ns,
            granted,
        ),
        read_answered(offered, granted, mid),
        read_decided(
            read_model(
                "type=read:pw="@ + base64_encoded(encode_utf8(token)) + ":name="@ + name,
                Some(payload),
            ),
            true,
            mid.pending_paste_grant,
            later_ns,
            refused,
        ),
        read_answered(mid, refused, post),
    ensures
        mid.pending_clipboard_requests@.len() == offered.pending_clipboard_requests@.len() + 1,
        mid.pending_clipboard_requests@.last().kind matches ClipboardReadKind::MimeData(kind)
            && kind@ == mime,
        mid.output_buffer == offered.output_buffer,
        post.pending_clipboard_requests == mid.pending_clipboard_requests,
        post.output_buffer@ == mid.output_buffer@ + status_reply("type=read:status=EPERM"@),
{
    let password = base64_encoded(encode_utf8(token));
    if password.contains(':') {
        let i = choose|i: int| 0 <= i < password.len() && password[i] == ':';
        assert(is_base64_char(password[i]));
    }
    lemma_paste_fields(password, name);
    let read = read_model("type=read:pw="@ + password + ":name="@ + name, Some(payload));
    offered_paste_can_be_read(
        pre,
        mimes,
        token,
        offered_ns,
        offered,
        output,
        read,
        mime,
        now_ns,
        granted,
    );
}

} // verus!
