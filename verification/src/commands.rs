//! The log of shell commands and their outcomes.

use std::collections::VecDeque;
use std::time::SystemTime;
use vstd::prelude::*;

use crate::bounded_text::lemma_utf8_len_bounds;
use crate::bounded_text::lemma_utf8_len_encodes;
use crate::bounded_text::utf8_len;
use crate::bounded_text::ExtractedText;
use crate::osc133::decode_osc_133_cwd;
use crate::osc133::percent_decode_osc_133;
use crate::osc133::percent_value;
use crate::osc133::text_of;
use crate::osc133::valid_cwd;
use crate::osc133::valid_id;
use crate::osc133::valid_osc_133_id;
use crate::osc133::Osc133DecodeError;
use crate::osc133::MAX_OSC_133_COMMAND_BYTES;
use crate::provenance::BufferAnchor;
use crate::provenance::FinishedOutputProvenance;
use crate::state::next_id_after;
use crate::text::chars_of;
use crate::text::string_of;

verus! {

/// Most commands that the log keeps.
pub const MAX_COMMAND_MARKS: usize = 1024;

/// Most completion events that wait to be drained.
pub const MAX_PENDING_COMPLETED_COMMANDS: usize = 32;

/// Most execution ids that are remembered as used up.
pub const MAX_CONSUMED_COMMAND_IDS: usize = 1024;

/// Most bytes of output captured for one command.
pub const MAX_COMPLETED_COMMAND_OUTPUT_BYTES: usize = 262144;

/// Most bytes of output captured for all commands together.
pub const MAX_CAPTURED_COMMAND_OUTPUT_BYTES: usize = 16777216;

/// `std::time::SystemTime`: a point in wall-clock time, carried through as it
/// is.
#[verifier::external_type_specification]
#[verifier::external_body]
pub struct ExSystemTime(SystemTime);

/// A prompt in the legacy mark list.
#[derive(Clone, Copy, Debug, PartialEq, Eq, Structural)]
pub struct CommandMark {
    pub line_id: u64,
    pub exit_code: Option<i32>,
}

/// Stage of a command.
#[derive(Clone, Copy, Debug, PartialEq, Eq, Structural)]
pub enum CommandState {
    Prompt,
    Editing,
    Running,
    Complete,
}

/// What closed a command.
#[derive(Clone, Copy, Debug, PartialEq, Eq, Structural)]
pub enum CompletionProvenance {
    Unknown,
    ShellReported,
    BoundaryInferred,
}

/// How far a closed command can be trusted.
#[derive(Clone, Copy, Debug, PartialEq, Eq, Structural)]
pub enum BlockLifecycleHealth {
    Healthy,
    Recovered,
    Degraded,
}

/// Only a command whose start was seen and whose end the shell reported is
/// healthy.
pub open spec fn spec_assess_lifecycle(
    start_mark_seen: bool,
    provenance: CompletionProvenance,
) -> BlockLifecycleHealth {
    if start_mark_seen && provenance == CompletionProvenance::ShellReported {
        BlockLifecycleHealth::Healthy
    } else {
        BlockLifecycleHealth::Degraded
    }
}

/// Only a command whose start was seen and whose end the shell reported is
/// healthy.
pub fn assess_lifecycle(start_mark_seen: bool, provenance: CompletionProvenance) -> (health:
    BlockLifecycleHealth)
    ensures
        health == spec_assess_lifecycle(start_mark_seen, provenance),
{
    if start_mark_seen && provenance == CompletionProvenance::ShellReported {
        BlockLifecycleHealth::Healthy
    } else {
        BlockLifecycleHealth::Degraded
    }
}

/// One command from its prompt to its end.
pub struct CommandRecord {
    pub id: String,
    pub sequence: u64,
    pub command: Option<String>,
    pub command_exact: bool,
    pub command_truncated: bool,
    pub cwd: Option<String>,
    pub cwd_after: Option<String>,
    pub session_id: Option<String>,
    pub seq: Option<u64>,
    pub started_at_ms: Option<u64>,
    pub prompt_start: BufferAnchor,
    pub command_start: Option<BufferAnchor>,
    pub output_start: Option<BufferAnchor>,
    pub output_end: Option<BufferAnchor>,
    pub end: Option<BufferAnchor>,
    pub exit_code: Option<i32>,
    pub duration_ms: Option<u64>,
    pub state: CommandState,
    pub complete: bool,
    pub start_mark_seen: bool,
    pub completion_provenance: CompletionProvenance,
    pub started_at: Option<SystemTime>,
    pub finished_at: Option<SystemTime>,
    pub agent_generation: Option<u64>,
    pub captured_output: Option<ExtractedText>,
    pub started_ns: Option<u64>,
}

/// A captured text as a value.
pub struct TextModel {
    pub text: Seq<char>,
    pub truncated: bool,
    pub total_bytes: usize,
}

/// A captured text as a value.
pub open spec fn text_model(text: ExtractedText) -> TextModel {
    TextModel { text: text.text@, truncated: text.truncated, total_bytes: text.total_bytes }
}

/// An optional captured text as a value.
pub open spec fn output_model(output: Option<ExtractedText>) -> Option<TextModel> {
    match output {
        Some(output) => Some(text_model(output)),
        None => None,
    }
}

/// A command as a value.
pub struct RecordModel {
    pub id: Seq<char>,
    pub sequence: u64,
    pub command: Option<Seq<char>>,
    pub command_exact: bool,
    pub command_truncated: bool,
    pub cwd: Option<Seq<char>>,
    pub cwd_after: Option<Seq<char>>,
    pub session_id: Option<Seq<char>>,
    pub seq: Option<u64>,
    pub started_at_ms: Option<u64>,
    pub prompt_start: BufferAnchor,
    pub command_start: Option<BufferAnchor>,
    pub output_start: Option<BufferAnchor>,
    pub output_end: Option<BufferAnchor>,
    pub end: Option<BufferAnchor>,
    pub exit_code: Option<i32>,
    pub duration_ms: Option<u64>,
    pub state: CommandState,
    pub complete: bool,
    pub start_mark_seen: bool,
    pub completion_provenance: CompletionProvenance,
    pub started_at: Option<SystemTime>,
    pub finished_at: Option<SystemTime>,
    pub agent_generation: Option<u64>,
    pub captured_output: Option<TextModel>,
    pub started_ns: Option<u64>,
}

impl View for CommandRecord {
    type V = RecordModel;

    open spec fn view(&self) -> RecordModel {
        RecordModel {
            id: self.id@,
            sequence: self.sequence,
            command: text_of(self.command),
            command_exact: self.command_exact,
            command_truncated: self.command_truncated,
            cwd: text_of(self.cwd),
            cwd_after: text_of(self.cwd_after),
            session_id: text_of(self.session_id),
            seq: self.seq,
            started_at_ms: self.started_at_ms,
            prompt_start: self.prompt_start,
            command_start: self.command_start,
            output_start: self.output_start,
            output_end: self.output_end,
            end: self.end,
            exit_code: self.exit_code,
            duration_ms: self.duration_ms,
            state: self.state,
            complete: self.complete,
            start_mark_seen: self.start_mark_seen,
            completion_provenance: self.completion_provenance,
            started_at: self.started_at,
            finished_at: self.finished_at,
            agent_generation: self.agent_generation,
            captured_output: output_model(self.captured_output),
            started_ns: self.started_ns,
        }
    }
}

/// A finished command as reported to the application.
#[derive(Debug)]
pub struct CompletedCommandOutput {
    pub id: String,
    pub session_id: Option<String>,
    pub seq: Option<u64>,
    pub started_at_ms: Option<u64>,
    pub command: Option<String>,
    pub cwd: Option<String>,
    pub exit_code: Option<i32>,
    pub duration_ms: Option<u64>,
    pub output: String,
    pub output_available: bool,
    pub truncated: bool,
    pub total_bytes: usize,
    pub agent_generation: Option<u64>,
}

/// A finished command with the evidence for its end.
#[derive(Debug)]
pub struct CompletedCommandEvent {
    pub completed: CompletedCommandOutput,
    pub start_mark_seen: bool,
    pub completion_provenance: CompletionProvenance,
}

/// The text of an output that is not available.
pub open spec fn no_text() -> TextModel {
    TextModel { text: Seq::empty(), truncated: false, total_bytes: 0 }
}

/// A finished command, as reported, as a value.
pub struct CompletedModel {
    pub id: Seq<char>,
    pub session_id: Option<Seq<char>>,
    pub seq: Option<u64>,
    pub started_at_ms: Option<u64>,
    pub command: Option<Seq<char>>,
    pub cwd: Option<Seq<char>>,
    pub exit_code: Option<i32>,
    pub duration_ms: Option<u64>,
    pub output: TextModel,
    pub output_available: bool,
    pub agent_generation: Option<u64>,
}

/// A completion event as a value.
pub struct EventModel {
    pub completed: CompletedModel,
    pub start_mark_seen: bool,
    pub completion_provenance: CompletionProvenance,
}

impl View for CompletedCommandOutput {
    type V = CompletedModel;

    open spec fn view(&self) -> CompletedModel {
        CompletedModel {
            id: self.id@,
            session_id: text_of(self.session_id),
            seq: self.seq,
            started_at_ms: self.started_at_ms,
            command: text_of(self.command),
            cwd: text_of(self.cwd),
            exit_code: self.exit_code,
            duration_ms: self.duration_ms,
            output: TextModel {
                text: self.output@,
                truncated: self.truncated,
                total_bytes: self.total_bytes,
            },
            output_available: self.output_available,
            agent_generation: self.agent_generation,
        }
    }
}

impl View for CompletedCommandEvent {
    type V = EventModel;

    open spec fn view(&self) -> EventModel {
        EventModel {
            completed: self.completed@,
            start_mark_seen: self.start_mark_seen,
            completion_provenance: self.completion_provenance,
        }
    }
}

impl EventModel {
    /// An event without output has an empty text.
    pub open spec fn wf(self) -> bool {
        !self.completed.output_available ==> self.completed.output == no_text()
    }
}

impl CompletedCommandEvent {
    /// How far the command can be trusted.
    pub fn lifecycle_health(&self) -> (health: BlockLifecycleHealth)
        ensures
            health == spec_assess_lifecycle(self.start_mark_seen, self.completion_provenance),
    {
        assess_lifecycle(self.start_mark_seen, self.completion_provenance)
    }

    /// Whether the command can be trusted as complete.
    pub fn is_trusted_completion(&self) -> (yes: bool)
        ensures
            yes == (self.start_mark_seen && self.completion_provenance
                == CompletionProvenance::ShellReported),
    {
        match self.lifecycle_health() {
            BlockLifecycleHealth::Healthy => true,
            BlockLifecycleHealth::Recovered => true,
            BlockLifecycleHealth::Degraded => false,
        }
    }
}

/// An approved command that waits for its start mark.
pub struct ArmedAgentExecution {
    pub generation: u64,
    pub command_sequence: u64,
    pub command: String,
}

/// An approved command as a value.
pub struct ArmedModel {
    pub generation: u64,
    pub command_sequence: u64,
    pub command: Seq<char>,
}

/// An optional approved command as a value.
pub open spec fn armed_model(armed: Option<ArmedAgentExecution>) -> Option<ArmedModel> {
    match armed {
        Some(armed) => Some(
            ArmedModel {
                generation: armed.generation,
                command_sequence: armed.command_sequence,
                command: armed.command@,
            },
        ),
        None => None,
    }
}

/// Whether the user typed at the current prompt.
#[derive(Clone, Copy, Debug, PartialEq, Eq, Structural)]
pub enum PromptInput {
    Clean,
    Tainted,
}

/// The commands, newest last, and what is owed to the application.
pub struct CommandLog {
    pub records: VecDeque<CommandRecord>,
    pub next_sequence: u64,
    pub consumed_ids: VecDeque<String>,
    pub events: VecDeque<CompletedCommandEvent>,
    pub captured_bytes: usize,
    pub prompt_input: PromptInput,
    pub armed: Option<ArmedAgentExecution>,
}

/// Commands that were cleared from the log, kept so that the clearing can be
/// undone.
pub struct ClearedBlocks {
    pub records: Vec<CommandRecord>,
    pub provenance: Vec<FinishedOutputProvenance>,
    pub captured_bytes: usize,
}

/// The log as a value.
pub struct LogModel {
    pub records: Seq<RecordModel>,
    pub next_sequence: u64,
    pub consumed_ids: Seq<Seq<char>>,
    pub events: Seq<EventModel>,
    pub captured_bytes: usize,
    pub prompt_input: PromptInput,
    pub armed: Option<ArmedModel>,
}

/// Commands as values.
pub open spec fn record_models(records: Seq<CommandRecord>) -> Seq<RecordModel> {
    Seq::new(records.len(), |i: int| records[i]@)
}

/// Strings as values.
pub open spec fn string_models(strings: Seq<String>) -> Seq<Seq<char>> {
    Seq::new(strings.len(), |i: int| strings[i]@)
}

/// Events as values.
pub open spec fn event_models(events: Seq<CompletedCommandEvent>) -> Seq<EventModel> {
    Seq::new(events.len(), |i: int| events[i]@)
}

impl View for CommandLog {
    type V = LogModel;

    open spec fn view(&self) -> LogModel {
        LogModel {
            records: record_models(self.records@),
            next_sequence: self.next_sequence,
            consumed_ids: string_models(self.consumed_ids@),
            events: event_models(self.events@),
            captured_bytes: self.captured_bytes,
            prompt_input: self.prompt_input,
            armed: armed_model(self.armed),
        }
    }
}

/// Bytes of output captured for one command.
pub open spec fn captured_len(record: RecordModel) -> int {
    match record.captured_output {
        Some(output) => utf8_len(output.text),
        None => 0,
    }
}

/// Bytes of output captured for all commands.
pub open spec fn captured_total(records: Seq<RecordModel>) -> int
    decreases records.len(),
{
    if records.len() == 0 {
        0
    } else {
        captured_total(records.drop_last()) + captured_len(records.last())
    }
}

/// The decimal digits of a number.
pub open spec fn decimal_text(n: nat) -> Seq<char>
    decreases n,
{
    if n < 10 {
        seq![(48 + n) as char]
    } else {
        decimal_text(n / 10).push((48 + n % 10) as char)
    }
}

/// The decimal digits of a number.
pub fn decimal(n: u64) -> (digits: Vec<char>)
    ensures
        digits@ == decimal_text(n as nat),
    decreases n,
{
    let d: char = ((n % 10) as u8 + 48) as char;
    if n < 10 {
        let mut digits: Vec<char> = Vec::new();
        digits.push(d);
        assert(digits@ =~= decimal_text(n as nat));
        digits
    } else {
        let mut digits = decimal(n / 10);
        digits.push(d);
        digits
    }
}

/// The id of a command that the shell has not named.
pub open spec fn local_id(sequence: u64) -> Seq<char> {
    "local:"@ + decimal_text(sequence as nat)
}

/// The id of a command that the shell has not named.
pub fn local_command_id(sequence: u64) -> (id: String)
    ensures
        id@ == local_id(sequence),
{
    let mut chars = chars_of("local:");
    let mut digits = decimal(sequence);
    chars.append(&mut digits);
    string_of(&chars)
}

/// The newest command with an id.
pub open spec fn index_of_id(records: Seq<RecordModel>, id: Seq<char>) -> Option<int>
    decreases records.len(),
{
    if records.len() == 0 {
        None
    } else if records.last().id == id {
        Some(records.len() - 1)
    } else {
        index_of_id(records.drop_last(), id)
    }
}

/// The newest command that is not complete.
pub open spec fn active_index(records: Seq<RecordModel>) -> Option<int>
    decreases records.len(),
{
    if records.len() == 0 {
        None
    } else if !records.last().complete {
        Some(records.len() - 1)
    } else {
        active_index(records.drop_last())
    }
}

/// Whether another command than the one at `index` has the id.
pub open spec fn id_taken(records: Seq<RecordModel>, index: int, id: Seq<char>) -> bool {
    exists|other: int|
        0 <= other < records.len() && other != index && (#[trigger] records[other]).id == id
}

/// A command after metadata arrived for it. A disclosed or actual overlong
/// command leaves no text behind, and a malformed field changes nothing.
pub open spec fn with_metadata(
    record: RecordModel,
    command: Option<Seq<char>>,
    cwd: Option<Seq<char>>,
    truncated: bool,
) -> RecordModel {
    with_cwd(with_command(record, command, truncated), cwd)
}

impl LogModel {
    /// The id that the command at `index` takes over from a packet, if any.
    pub open spec fn adoptable(self, index: int, requested: Option<Seq<char>>) -> Option<Seq<char>> {
        match requested {
            None => None,
            Some(value) => match valid_id(value) {
                None => None,
                Some(id) => if self.consumed_ids.contains(id) || id_taken(
                    self.records,
                    index,
                    id,
                ) {
                    None
                } else {
                    Some(id)
                },
            },
        }
    }

    /// The log after metadata arrived for the command at `index`.
    pub open spec fn metadata_applied(
        self,
        index: int,
        id: Option<Seq<char>>,
        command: Option<Seq<char>>,
        cwd: Option<Seq<char>>,
        truncated: bool,
    ) -> LogModel {
        let record = self.records[index];
        let renamed = match self.adoptable(index, id) {
            Some(id) => RecordModel { id, ..record },
            None => record,
        };
        LogModel {
            records: self.records.update(index, with_metadata(renamed, command, cwd, truncated)),
            ..self
        }
    }

    /// The log after an execution id was used up. Only the most recent ones
    /// are remembered.
    pub open spec fn id_consumed(self, id: Seq<char>) -> LogModel {
        if id.len() == 0 || self.consumed_ids.contains(id) {
            self
        } else if self.consumed_ids.len() >= MAX_CONSUMED_COMMAND_IDS {
            LogModel { consumed_ids: self.consumed_ids.drop_first().push(id), ..self }
        } else {
            LogModel { consumed_ids: self.consumed_ids.push(id), ..self }
        }
    }

    /// The log after an event was queued. Only the most recent ones wait.
    pub open spec fn event_queued(self, event: EventModel) -> LogModel {
        if self.events.len() >= MAX_PENDING_COMPLETED_COMMANDS {
            LogModel { events: self.events.drop_first().push(event), ..self }
        } else {
            LogModel { events: self.events.push(event), ..self }
        }
    }
}

/// Once found from the end, the newest match stays as older ones are
/// considered.
proof fn lemma_index_of_id(records: Seq<RecordModel>, id: Seq<char>, n: int)
    requires
        0 <= n <= records.len(),
        forall|k: int| n <= k < records.len() ==> (#[trigger] records[k]).id != id,
    ensures
        index_of_id(records, id) == index_of_id(records.take(n), id),
    decreases records.len() - n,
{
    if n == records.len() {
        assert(records.take(n) =~= records);
    } else {
        lemma_index_of_id(records, id, n + 1);
        assert(records.take(n + 1).drop_last() =~= records.take(n));
        assert(records.take(n + 1).last() == records[n]);
    }
}

/// Complete commands at the end do not change which one is active.
proof fn lemma_active_index(records: Seq<RecordModel>, n: int)
    requires
        0 <= n <= records.len(),
        forall|k: int| n <= k < records.len() ==> (#[trigger] records[k]).complete,
    ensures
        active_index(records) == active_index(records.take(n)),
    decreases records.len() - n,
{
    if n == records.len() {
        assert(records.take(n) =~= records);
    } else {
        lemma_active_index(records, n + 1);
        assert(records.take(n + 1).drop_last() =~= records.take(n));
        assert(records.take(n + 1).last() == records[n]);
    }
}

/// A command with its shortened text dropped.
pub open spec fn shortened(record: RecordModel) -> RecordModel {
    RecordModel { command: None, command_exact: false, command_truncated: true, ..record }
}

/// A command after a packet said something of its text.
pub open spec fn with_command(
    record: RecordModel,
    command: Option<Seq<char>>,
    truncated: bool,
) -> RecordModel {
    let disclosed = if truncated {
        shortened(record)
    } else {
        record
    };
    match command {
        None => disclosed,
        Some(value) => match percent_value(value, MAX_OSC_133_COMMAND_BYTES as int) {
            Ok(text) => RecordModel { command: Some(text), command_exact: true, ..disclosed },
            Err(Osc133DecodeError::TooLong) => shortened(record),
            Err(_) => disclosed,
        },
    }
}

/// A command after a packet said something of its directory.
pub open spec fn with_cwd(record: RecordModel, cwd: Option<Seq<char>>) -> RecordModel {
    match cwd {
        None => record,
        Some(value) => match valid_cwd(value) {
            Some(path) => RecordModel { cwd: Some(path), ..record },
            None => record,
        },
    }
}

impl CommandRecord {
    /// Takes over an id.
    fn renamed(self, id: Option<String>) -> (record: CommandRecord)
        ensures
            record@ == match id {
                Some(id) => RecordModel { id: id@, ..self@ },
                None => self@,
            },
    {
        match id {
            Some(id) => CommandRecord { id, ..self },
            None => self,
        }
    }

    /// Drops a shortened text.
    fn shortened(self) -> (record: CommandRecord)
        ensures
            record@ == shortened(self@),
    {
        CommandRecord { command: None, command_exact: false, command_truncated: true, ..self }
    }

    /// Takes over what a packet says of the command text.
    fn with_command_metadata(self, command: &Option<String>, truncated: bool) -> (record:
        CommandRecord)
        ensures
            record@ == with_command(self@, text_of(*command), truncated),
    {
        let disclosed = if truncated {
            self.shortened()
        } else {
            self
        };
        match command {
            None => disclosed,
            Some(value) => match percent_decode_osc_133(value.as_str(), MAX_OSC_133_COMMAND_BYTES) {
                Ok(text) => CommandRecord { command: Some(text), command_exact: true, ..disclosed },
                Err(Osc133DecodeError::TooLong) => disclosed.shortened(),
                Err(_) => disclosed,
            },
        }
    }

    /// Takes over what a packet says of the directory.
    fn with_cwd_metadata(self, cwd: &Option<String>) -> (record: CommandRecord)
        ensures
            record@ == with_cwd(self@, text_of(*cwd)),
    {
        match cwd {
            None => self,
            Some(value) => match decode_osc_133_cwd(value.as_str()) {
                Some(path) => CommandRecord { cwd: Some(path), ..self },
                None => self,
            },
        }
    }
}

/// Whether an index is the expected one.
pub open spec fn same_index(found: Option<usize>, expected: Option<int>) -> bool {
    match (found, expected) {
        (Some(a), Some(b)) => a == b,
        (None, None) => true,
        _ => false,
    }
}

impl CommandLog {
    /// An empty log.
    pub fn new() -> (log: CommandLog)
        ensures
            log@ == (LogModel {
                records: Seq::empty(),
                next_sequence: 1,
                consumed_ids: Seq::empty(),
                events: Seq::empty(),
                captured_bytes: 0,
                prompt_input: PromptInput::Clean,
                armed: None,
            }),
    {
        let log = CommandLog {
            records: VecDeque::new(),
            next_sequence: 1,
            consumed_ids: VecDeque::new(),
            events: VecDeque::new(),
            captured_bytes: 0,
            prompt_input: PromptInput::Clean,
            armed: None,
        };
        assert(log@.records =~= Seq::empty());
        assert(log@.consumed_ids =~= Seq::empty());
        assert(log@.events =~= Seq::empty());
        log
    }

    /// Finds the newest command with an id.
    pub fn record_index_for_id(&self, id: &String) -> (index: Option<usize>)
        ensures
            same_index(index, index_of_id(self@.records, id@)),
            index matches Some(i) ==> i < self.records@.len(),
    {
        let ghost records = self@.records;
        let mut n: usize = self.records.len();
        while n > 0
            invariant
                n <= records.len(),
                records == self@.records,
                forall|k: int| n <= k < records.len() ==> (#[trigger] records[k]).id != id@,
            decreases n,
        {
            if self.records[n - 1].id == *id {
                proof {
                    lemma_index_of_id(records, id@, n as int);
                    assert(records.take(n as int).last() == records[n - 1]);
                }
                return Some(n - 1);
            }
            n = n - 1;
        }
        proof {
            lemma_index_of_id(records, id@, 0);
            assert(records.take(0) =~= Seq::empty());
        }
        None
    }

    /// Finds the newest command that is not complete.
    pub fn active_record_index(&self) -> (index: Option<usize>)
        ensures
            same_index(index, active_index(self@.records)),
            index matches Some(i) ==> i < self.records@.len() && !self.records@[i as int].complete,
    {
        let ghost records = self@.records;
        let mut n: usize = self.records.len();
        while n > 0
            invariant
                n <= records.len(),
                records == self@.records,
                forall|k: int| n <= k < records.len() ==> (#[trigger] records[k]).complete,
            decreases n,
        {
            if !self.records[n - 1].complete {
                proof {
                    lemma_active_index(records, n as int);
                    assert(records.take(n as int).last() == records[n - 1]);
                }
                return Some(n - 1);
            }
            n = n - 1;
        }
        proof {
            lemma_active_index(records, 0);
            assert(records.take(0) =~= Seq::empty());
        }
        None
    }

    /// Whether an execution id was used up.
    pub fn command_id_was_consumed(&self, id: &String) -> (consumed: bool)
        ensures
            consumed == self@.consumed_ids.contains(id@),
    {
        let ghost ids = self@.consumed_ids;
        let mut i: usize = 0;
        while i < self.consumed_ids.len()
            invariant
                i <= ids.len(),
                ids == self@.consumed_ids,
                forall|k: int| 0 <= k < i ==> #[trigger] ids[k] != id@,
            decreases ids.len() - i,
        {
            let other: &String = &self.consumed_ids[i];
            assert(ids[i as int] == other@);
            if *other == *id {
                return true;
            }
            i = i + 1;
        }
        false
    }

    /// Remembers that an execution id was used up.
    pub fn remember_consumed_command_id(&mut self, id: &String)
        ensures
            final(self)@ == old(self)@.id_consumed(id@),
            *final(self) == (CommandLog {
                consumed_ids: final(self).consumed_ids,
                ..*old(self)
            }),
    {
        if id.as_str().is_empty() || self.command_id_was_consumed(id) {
            return;
        }
        let ghost before = self@.consumed_ids;
        if self.consumed_ids.len() >= MAX_CONSUMED_COMMAND_IDS {
            let _ = self.consumed_ids.pop_front();
            assert(self@.consumed_ids =~= before.drop_first());
        }
        let ghost kept = self@.consumed_ids;
        self.consumed_ids.push_back(id.clone());
        assert(self@.consumed_ids =~= kept.push(id@));
    }

    /// Whether another command than the one at `index` has the id.
    fn id_is_taken(&self, index: usize, id: &String) -> (taken: bool)
        ensures
            taken == id_taken(self@.records, index as int, id@),
    {
        let ghost records = self@.records;
        let mut i: usize = 0;
        while i < self.records.len()
            invariant
                i <= records.len(),
                records == self@.records,
                forall|k: int| 0 <= k < i && k != index ==> (#[trigger] records[k]).id != id@,
            decreases records.len() - i,
        {
            if i != index && self.records[i].id == *id {
                assert(records[i as int].id == id@);
                return true;
            }
            i = i + 1;
        }
        false
    }

    /// The id that the command at `index` takes over from a packet, if any.
    fn adoptable_id(&self, index: usize, requested: &Option<String>) -> (id: Option<String>)
        ensures
            text_of(id) == self@.adoptable(index as int, text_of(*requested)),
    {
        match requested {
            None => None,
            Some(value) => match valid_osc_133_id(value.as_str()) {
                None => None,
                Some(id) => if self.command_id_was_consumed(&id) || self.id_is_taken(index, &id) {
                    None
                } else {
                    Some(id)
                },
            },
        }
    }

    /// Applies the metadata of a packet to the command at `index`.
    pub fn apply_record_metadata(
        &mut self,
        index: usize,
        id: &Option<String>,
        command: &Option<String>,
        cwd: &Option<String>,
        command_truncated: bool,
    )
        requires
            index < old(self).records@.len(),
        ensures
            final(self)@ == old(self)@.metadata_applied(
                index as int,
                text_of(*id),
                text_of(*command),
                text_of(*cwd),
                command_truncated,
            ),
            *final(self) == (CommandLog { records: final(self).records, ..*old(self) }),
            old(self)@.wf() ==> final(self)@.wf(),
    {
        let adopted = self.adoptable_id(index, id);
        let ghost before = self@.records;
        let record = self.records.remove(index).unwrap();
        let record = record.renamed(adopted).with_command_metadata(command, command_truncated)
            .with_cwd_metadata(cwd);
        let ghost after = record@;
        self.records.insert(index, record);
        assert(self@.records =~= before.update(index as int, after));
        proof {
            if old(self)@.wf() {
                lemma_output_kept(before, index as int, after);
            }
        }
    }

    /// Queues a completion event.
    pub fn queue_event(&mut self, event: CompletedCommandEvent)
        ensures
            final(self)@ == old(self)@.event_queued(event@),
            *final(self) == (CommandLog { events: final(self).events, ..*old(self) }),
    {
        let ghost before = self@.events;
        if self.events.len() >= MAX_PENDING_COMPLETED_COMMANDS {
            let _ = self.events.pop_front();
            assert(self@.events =~= before.drop_first());
        }
        let ghost kept = self@.events;
        self.events.push_back(event);
        assert(self@.events =~= kept.push(event@));
    }
}

impl LogModel {
    /// The bounds of the log, the count of captured bytes, and that only the
    /// newest command can be open.
    pub open spec fn wf(self) -> bool {
        &&& self.records.len() <= MAX_COMMAND_MARKS
        &&& only_newest_open(self.records)
        &&& outputs_bounded(self.records)
        &&& self.captured_bytes == captured_total(self.records)
        &&& self.consumed_ids.len() <= MAX_CONSUMED_COMMAND_IDS
        &&& self.events.len() <= MAX_PENDING_COMPLETED_COMMANDS
        &&& events_wf(self.events)
    }
}

/// Whether all commands but the newest are complete.
pub open spec fn only_newest_open(records: Seq<RecordModel>) -> bool {
    forall|i: int| 0 <= i < records.len() - 1 ==> (#[trigger] records[i]).complete
}

/// Where only the newest command can be open, it is the active one, or all are
/// complete.
pub proof fn lemma_newest_active(records: Seq<RecordModel>)
    requires
        only_newest_open(records),
    ensures
        active_index(records) == if records.len() > 0 && !records.last().complete {
            Some(records.len() - 1)
        } else {
            None
        },
{
    if records.len() > 0 && records.last().complete {
        lemma_active_index(records, 0);
    }
}

/// Events that carry a text only where there is an output.
pub open spec fn events_wf(events: Seq<EventModel>) -> bool {
    forall|i: int| 0 <= i < events.len() ==> (#[trigger] events[i]).wf()
}

/// No captured output exceeds the limit for one command.
#[verifier::opaque]
pub open spec fn outputs_bounded(records: Seq<RecordModel>) -> bool {
    forall|i: int|
        0 <= i < records.len() ==> captured_len(#[trigger] records[i])
            <= MAX_COMPLETED_COMMAND_OUTPUT_BYTES
}

/// Captured bytes of many commands are bounded by their number.
pub proof fn lemma_captured_total_bounds(records: Seq<RecordModel>)
    requires
        outputs_bounded(records),
    ensures
        0 <= captured_total(records) <= records.len() * MAX_COMPLETED_COMMAND_OUTPUT_BYTES,
    decreases records.len(),
{
    reveal(outputs_bounded);
    if records.len() > 0 {
        let head = records.drop_last();
        assert(forall|i: int| 0 <= i < head.len() ==> #[trigger] head[i] == records[i]);
        lemma_captured_total_bounds(head);
        lemma_captured_len_nonnegative(records[records.len() - 1]);
        assert(captured_len(records[records.len() - 1]) <= MAX_COMPLETED_COMMAND_OUTPUT_BYTES);
    }
}

/// A byte count is never negative.
pub proof fn lemma_captured_len_nonnegative(record: RecordModel)
    ensures
        captured_len(record) >= 0,
{
    if let Some(output) = record.captured_output {
        lemma_utf8_len_bounds(output.text);
    }
}

/// Replacing one command changes the count by the difference.
pub proof fn lemma_captured_total_update(records: Seq<RecordModel>, i: int, record: RecordModel)
    requires
        0 <= i < records.len(),
    ensures
        captured_total(records.update(i, record)) == captured_total(records) - captured_len(
            records[i],
        ) + captured_len(record),
    decreases records.len(),
{
    let updated = records.update(i, record);
    if i == records.len() - 1 {
        assert(updated.drop_last() =~= records.drop_last());
    } else {
        assert(updated.drop_last() =~= records.drop_last().update(i, record));
        lemma_captured_total_update(records.drop_last(), i, record);
    }
}

/// Counts of parts add up.
pub proof fn lemma_captured_total_add(a: Seq<RecordModel>, b: Seq<RecordModel>)
    ensures
        captured_total(a + b) == captured_total(a) + captured_total(b),
    decreases b.len(),
{
    if b.len() == 0 {
        assert(a + b =~= a);
    } else {
        assert((a + b).drop_last() =~= a + b.drop_last());
        lemma_captured_total_add(a, b.drop_last());
    }
}

/// Without its oldest command, the log counts that much less.
pub proof fn lemma_captured_total_drop_first(records: Seq<RecordModel>)
    requires
        records.len() > 0,
    ensures
        captured_total(records.drop_first()) == captured_total(records) - captured_len(records[0]),
{
    let first = seq![records[0]];
    assert(first + records.drop_first() =~= records);
    lemma_captured_total_add(first, records.drop_first());
    assert(first.drop_last() =~= Seq::empty());
    reveal_with_fuel(captured_total, 2);
}

/// Bytes of a string as the machine counts them.
pub fn byte_len(text: &String) -> (n: usize)
    requires
        utf8_len(text@) <= usize::MAX,
    ensures
        n == utf8_len(text@),
{
    proof {
        lemma_utf8_len_encodes(text@);
    }
    text.as_str().len()
}

/// Bytes of captured output of a command.
pub fn captured_bytes_of(record: &CommandRecord) -> (n: usize)
    requires
        captured_len(record@) <= MAX_COMPLETED_COMMAND_OUTPUT_BYTES,
    ensures
        n == captured_len(record@),
{
    match &record.captured_output {
        Some(output) => byte_len(&output.text),
        None => 0,
    }
}

/// A command without its captured output.
pub open spec fn released(record: RecordModel) -> RecordModel {
    RecordModel { captured_output: None, ..record }
}

/// The commands after captured outputs were dropped, oldest first from `from`
/// on and sparing `keep`, until at most `budget` bytes remain.
pub open spec fn space_made(
    records: Seq<RecordModel>,
    keep: int,
    from: int,
    budget: int,
) -> Seq<RecordModel>
    decreases records.len() - from,
{
    if from < 0 || from >= records.len() || captured_total(records) <= budget {
        records
    } else if from != keep {
        space_made(records.update(from, released(records[from])), keep, from + 1, budget)
    } else {
        space_made(records, keep, from + 1, budget)
    }
}

impl LogModel {
    /// The log after `output` was captured for the command at `index`. Older
    /// captures make way for it.
    pub open spec fn output_captured(self, index: int, output: TextModel) -> LogModel {
        let bytes = utf8_len(output.text);
        let cleared = self.records.update(index, released(self.records[index]));
        let spaced = space_made(
            cleared,
            index,
            0,
            MAX_CAPTURED_COMMAND_OUTPUT_BYTES - bytes,
        );
        let records = if bytes <= MAX_CAPTURED_COMMAND_OUTPUT_BYTES {
            spaced.update(
                index,
                RecordModel { captured_output: Some(output), ..spaced[index] },
            )
        } else {
            spaced
        };
        LogModel { records, captured_bytes: captured_total(records) as usize, ..self }
    }
}

impl CommandLog {
    /// Drops the captured output of the command at `index`.
    fn release_output(&mut self, index: usize)
        requires
            old(self)@.wf(),
            index < old(self).records@.len(),
        ensures
            final(self)@.wf(),
            final(self)@.records == old(self)@.records.update(
                index as int,
                released(old(self)@.records[index as int]),
            ),
            *final(self) == (CommandLog {
                records: final(self).records,
                captured_bytes: final(self).captured_bytes,
                ..*old(self)
            }),
    {
        let ghost before = self@.records;
        proof {
            reveal(outputs_bounded);
            lemma_captured_total_bounds(before);
            lemma_captured_total_update(before, index as int, released(before[index as int]));
            lemma_captured_len_nonnegative(before[index as int]);
            assert(captured_len(before[index as int]) <= MAX_COMPLETED_COMMAND_OUTPUT_BYTES);
        }
        let bytes: usize = captured_bytes_of(&self.records[index]);
        proof {
            let after = before.update(index as int, released(before[index as int]));
            assert(outputs_bounded(after));
            lemma_captured_total_bounds(after);
        }
        let record = self.records.remove(index).unwrap();
        self.records.insert(index, CommandRecord { captured_output: None, ..record });
        self.captured_bytes = self.captured_bytes - bytes;
        assert(self@.records =~= before.update(index as int, released(before[index as int])));
    }

    /// Captures `output` for the command at `index`.
    pub fn store_captured_command_output(&mut self, index: usize, output: ExtractedText)
        requires
            old(self)@.wf(),
            index < old(self).records@.len(),
            utf8_len(output.text@) <= MAX_COMPLETED_COMMAND_OUTPUT_BYTES,
        ensures
            final(self)@.wf(),
            final(self)@ == old(self)@.output_captured(index as int, text_model(output)),
            final(self).records@.len() == old(self).records@.len(),
            *final(self) == (CommandLog {
                records: final(self).records,
                captured_bytes: final(self).captured_bytes,
                ..*old(self)
            }),
    {
        let ghost before = *self;
        self.release_output(index);
        let bytes: usize = byte_len(&output.text);
        let budget: usize = MAX_CAPTURED_COMMAND_OUTPUT_BYTES - bytes;
        let ghost cleared = self@.records;
        let mut from: usize = 0;
        while from < self.records.len() && self.captured_bytes > budget
            invariant
                self@.wf(),
                from <= self.records@.len(),
                index < self.records@.len(),
                self.records@.len() == cleared.len(),
                space_made(cleared, index as int, 0, budget as int) == space_made(
                    self@.records,
                    index as int,
                    from as int,
                    budget as int,
                ),
                forall|k: int|
                    0 <= k < from && k != index ==> (
                    #[trigger] self@.records[k]).captured_output is None,
                self@.records[index as int].captured_output is None,
                *self == (CommandLog {
                    records: self.records,
                    captured_bytes: self.captured_bytes,
                    ..before
                }),
            decreases self.records@.len() - from,
        {
            if from != index {
                self.release_output(from);
            }
            from = from + 1;
        }
        proof {
            if self.captured_bytes > budget {
                assert forall|k: int| 0 <= k < self@.records.len() implies (
                #[trigger] self@.records[k]).captured_output is None by {}
                lemma_nothing_captured(self@.records);
            }
            lemma_captured_total_update(
                self@.records,
                index as int,
                RecordModel {
                    captured_output: Some(text_model(output)),
                    ..self@.records[index as int]
                },
            );
        }
        let ghost spaced = self@.records;
        self.captured_bytes = self.captured_bytes + bytes;
        let ghost captured = text_model(output);
        let record = self.records.remove(index).unwrap();
        self.records.insert(index, CommandRecord { captured_output: Some(output), ..record });
        proof {
            let after = spaced.update(
                index as int,
                RecordModel { captured_output: Some(captured), ..spaced[index as int] },
            );
            assert(self@.records =~= after);
            reveal(outputs_bounded);
            assert(outputs_bounded(after));
        }
    }
}

/// Commands without captured output count nothing.
proof fn lemma_nothing_captured(records: Seq<RecordModel>)
    requires
        forall|k: int|
            0 <= k < records.len() ==> (#[trigger] records[k]).captured_output is None,
    ensures
        captured_total(records) == 0,
    decreases records.len(),
{
    if records.len() > 0 {
        let head = records.drop_last();
        assert(forall|k: int| 0 <= k < head.len() ==> #[trigger] head[k] == records[k]);
        lemma_nothing_captured(head);
        assert(records[records.len() - 1].captured_output is None);
    }
}

/// A command that has just been opened by a prompt.
pub open spec fn blank_record(
    sequence: u64,
    cwd: Option<Seq<char>>,
    prompt_start: BufferAnchor,
    start_mark_seen: bool,
) -> RecordModel {
    RecordModel {
        id: local_id(sequence),
        sequence,
        command: None,
        command_exact: false,
        command_truncated: false,
        cwd,
        cwd_after: None,
        session_id: None,
        seq: None,
        started_at_ms: None,
        prompt_start,
        command_start: None,
        output_start: None,
        output_end: None,
        end: None,
        exit_code: None,
        duration_ms: None,
        state: CommandState::Prompt,
        complete: false,
        start_mark_seen,
        completion_provenance: CompletionProvenance::Unknown,
        started_at: None,
        finished_at: None,
        agent_generation: None,
        captured_output: None,
        started_ns: None,
    }
}

/// The oldest command of a sequence number.
pub open spec fn first_with_sequence(records: Seq<RecordModel>, sequence: u64) -> Option<int>
    decreases records.len(),
{
    if records.len() == 0 {
        None
    } else if first_with_sequence(records.drop_last(), sequence) is Some {
        first_with_sequence(records.drop_last(), sequence)
    } else if records.last().sequence == sequence {
        Some(records.len() - 1)
    } else {
        None
    }
}

impl LogModel {
    /// Whether opening a command pushes the oldest one out.
    pub open spec fn is_full(self) -> bool {
        self.records.len() >= MAX_COMMAND_MARKS
    }

    /// The log without its oldest command.
    pub open spec fn oldest_evicted(self) -> LogModel {
        LogModel {
            records: self.records.drop_first(),
            captured_bytes: (self.captured_bytes - captured_len(self.records[0])) as usize,
            ..self
        }
    }

    /// The log after a command was opened at `anchor` with the metadata of its
    /// packet.
    pub open spec fn record_opened(
        self,
        anchor: BufferAnchor,
        current_dir: Option<Seq<char>>,
        id: Option<Seq<char>>,
        command: Option<Seq<char>>,
        cwd: Option<Seq<char>>,
        truncated: bool,
        start_mark_seen: bool,
    ) -> LogModel {
        let room = if self.is_full() {
            self.oldest_evicted()
        } else {
            self
        };
        let opened = LogModel {
            records: room.records.push(
                blank_record(self.next_sequence, current_dir, anchor, start_mark_seen),
            ),
            next_sequence: next_id_after(self.next_sequence),
            ..room
        };
        opened.metadata_applied(room.records.len() as int, id, command, cwd, truncated)
    }

    /// The log after a command ended without the shell reporting it.
    pub open spec fn terminated(
        self,
        id: Seq<char>,
        command: Option<Seq<char>>,
        cwd: Option<Seq<char>>,
        generation: u64,
        start_mark_seen: bool,
        remember_id: bool,
    ) -> LogModel {
        let queued = self.event_queued(
            EventModel {
                completed: CompletedModel {
                    id,
                    session_id: None,
                    seq: None,
                    started_at_ms: None,
                    command,
                    cwd,
                    exit_code: None,
                    duration_ms: None,
                    output: no_text(),
                    output_available: false,
                    agent_generation: Some(generation),
                },
                start_mark_seen,
                completion_provenance: CompletionProvenance::BoundaryInferred,
            },
        );
        if remember_id {
            queued.id_consumed(id)
        } else {
            queued
        }
    }

    /// The log after an approval that never reached its command was given up.
    pub open spec fn approval_abandoned(self, remember_id: bool) -> LogModel {
        match self.armed {
            None => self,
            Some(armed) => {
                let disarmed = LogModel { armed: None, ..self };
                let found = first_with_sequence(self.records, armed.command_sequence);
                let id = match found {
                    Some(i) => self.records[i].id,
                    None => local_id(armed.command_sequence),
                };
                let cwd = match found {
                    Some(i) => self.records[i].cwd,
                    None => None,
                };
                disarmed.terminated(
                    id,
                    Some(armed.command),
                    cwd,
                    armed.generation,
                    false,
                    remember_id,
                )
            },
        }
    }

    /// The log after a reset interrupted an approved command.
    pub open spec fn reset_interrupted(self) -> LogModel {
        match active_index(self.records) {
            Some(i) => match self.records[i].agent_generation {
                Some(generation) => self.terminated(
                    self.records[i].id,
                    self.records[i].command,
                    self.records[i].cwd,
                    generation,
                    true,
                    true,
                ),
                None => self.approval_abandoned(true),
            },
            None => self.approval_abandoned(true),
        }
    }
}

/// A copy of an optional string.
pub fn copy_text(text: &Option<String>) -> (copy: Option<String>)
    ensures
        text_of(copy) == text_of(*text),
{
    match text {
        Some(text) => Some(text.clone()),
        None => None,
    }
}

/// Once found, the oldest match stays as newer commands are considered.
proof fn lemma_first_with_sequence_extends(records: Seq<RecordModel>, n: int, sequence: u64)
    requires
        0 <= n <= records.len(),
        first_with_sequence(records.take(n), sequence) is Some,
    ensures
        first_with_sequence(records, sequence) == first_with_sequence(records.take(n), sequence),
    decreases records.len() - n,
{
    if n == records.len() {
        assert(records.take(n) =~= records);
    } else {
        assert(records.take(n + 1).drop_last() =~= records.take(n));
        lemma_first_with_sequence_extends(records, n + 1, sequence);
    }
}

impl CommandLog {
    /// Finds the oldest command of a sequence number.
    pub fn index_of_sequence(&self, sequence: u64) -> (index: Option<usize>)
        ensures
            same_index(index, first_with_sequence(self@.records, sequence)),
            index matches Some(i) ==> i < self.records@.len(),
    {
        let ghost records = self@.records;
        let mut i: usize = 0;
        while i < self.records.len()
            invariant
                i <= records.len(),
                records == self@.records,
                first_with_sequence(records.take(i as int), sequence) is None,
            decreases records.len() - i,
        {
            assert(records.take(i + 1).drop_last() =~= records.take(i as int));
            assert(records.take(i + 1).last() == records[i as int]);
            if self.records[i].sequence == sequence {
                proof {
                    lemma_first_with_sequence_extends(records, i + 1, sequence);
                }
                return Some(i);
            }
            i = i + 1;
        }
        assert(records.take(i as int) =~= records);
        None
    }

    /// Drops the oldest command and hands out its sequence number.
    pub fn evict_oldest(&mut self) -> (sequence: u64)
        requires
            old(self)@.wf(),
            old(self).records@.len() > 0,
        ensures
            final(self)@.wf(),
            final(self)@ == old(self)@.oldest_evicted(),
            sequence == old(self)@.records[0].sequence,
    {
        let ghost before = self@.records;
        proof {
            reveal(outputs_bounded);
            lemma_captured_total_bounds(before);
            lemma_captured_total_drop_first(before);
            lemma_captured_len_nonnegative(before[0]);
            assert(outputs_bounded(before.drop_first()));
            lemma_captured_total_bounds(before.drop_first());
        }
        let oldest = self.records.pop_front().unwrap();
        assert(oldest@ == before[0]);
        self.captured_bytes = self.captured_bytes - captured_bytes_of(&oldest);
        assert(self@.records =~= before.drop_first());
        oldest.sequence
    }

    /// Appends a command that was just opened.
    fn append_blank(
        &mut self,
        anchor: BufferAnchor,
        current_dir: &Option<String>,
        start_mark_seen: bool,
    )
        requires
            old(self)@.wf(),
            old(self).records@.len() < MAX_COMMAND_MARKS,
            active_index(old(self)@.records) is None,
        ensures
            final(self)@.wf(),
            final(self)@ == (LogModel {
                records: old(self)@.records.push(
                    blank_record(
                        old(self).next_sequence,
                        text_of(*current_dir),
                        anchor,
                        start_mark_seen,
                    ),
                ),
                next_sequence: next_id_after(old(self).next_sequence),
                ..old(self)@
            }),
    {
        let ghost before = self@.records;
        proof {
            lemma_newest_active(before);
        }
        let sequence: u64 = self.next_sequence;
        self.next_sequence = if sequence == 0 || sequence == u64::MAX {
            0
        } else {
            sequence + 1
        };
        let record = CommandRecord {
            id: local_command_id(sequence),
            sequence,
            command: None,
            command_exact: false,
            command_truncated: false,
            cwd: copy_text(current_dir),
            cwd_after: None,
            session_id: None,
            seq: None,
            started_at_ms: None,
            prompt_start: anchor,
            command_start: None,
            output_start: None,
            output_end: None,
            end: None,
            exit_code: None,
            duration_ms: None,
            state: CommandState::Prompt,
            complete: false,
            start_mark_seen,
            completion_provenance: CompletionProvenance::Unknown,
            started_at: None,
            finished_at: None,
            agent_generation: None,
            captured_output: None,
            started_ns: None,
        };
        let ghost blank = record@;
        self.records.push_back(record);
        proof {
            assert(self@.records =~= before.push(blank));
            assert(before.push(blank).drop_last() =~= before);
            reveal(outputs_bounded);
        }
    }

    /// Opens a command in a log that is not full.
    pub fn open_record(
        &mut self,
        anchor: BufferAnchor,
        current_dir: &Option<String>,
        id: &Option<String>,
        command: &Option<String>,
        cwd: &Option<String>,
        command_truncated: bool,
        start_mark_seen: bool,
    )
        requires
            old(self)@.wf(),
            !old(self)@.is_full(),
            active_index(old(self)@.records) is None,
        ensures
            final(self)@.wf(),
            final(self)@ == old(self)@.record_opened(
                anchor,
                text_of(*current_dir),
                text_of(*id),
                text_of(*command),
                text_of(*cwd),
                command_truncated,
                start_mark_seen,
            ),
    {
        self.append_blank(anchor, current_dir, start_mark_seen);
        let index: usize = self.records.len() - 1;
        self.apply_record_metadata(index, id, command, cwd, command_truncated);
    }

    /// Reports the end of a command that the shell did not report.
    fn queue_agent_termination(
        &mut self,
        id: String,
        command: Option<String>,
        cwd: Option<String>,
        generation: u64,
        start_mark_seen: bool,
        remember_id: bool,
    )
        requires
            old(self)@.wf(),
        ensures
            final(self)@.wf(),
            final(self)@ == old(self)@.terminated(
                id@,
                text_of(command),
                text_of(cwd),
                generation,
                start_mark_seen,
                remember_id,
            ),
    {
        let consumed = id.clone();
        let event = CompletedCommandEvent {
            start_mark_seen,
            completion_provenance: CompletionProvenance::BoundaryInferred,
            completed: CompletedCommandOutput {
                id,
                session_id: None,
                seq: None,
                started_at_ms: None,
                command,
                cwd,
                exit_code: None,
                duration_ms: None,
                output: String::new(),
                output_available: false,
                truncated: false,
                total_bytes: 0,
                agent_generation: Some(generation),
            },
        };
        self.queue_event(event);
        if remember_id {
            self.remember_consumed_command_id(&consumed);
        }
    }

    /// Gives up an approval that never reached its command.
    pub fn record_abandoned_armed_agent_command(&mut self, remember_id: bool)
        requires
            old(self)@.wf(),
        ensures
            final(self)@.wf(),
            final(self)@ == old(self)@.approval_abandoned(remember_id),
    {
        let armed = match self.armed.take() {
            Some(armed) => armed,
            None => {
                return;
            },
        };
        let (id, cwd) = match self.index_of_sequence(armed.command_sequence) {
            Some(i) => (self.records[i].id.clone(), copy_text(&self.records[i].cwd)),
            None => (local_command_id(armed.command_sequence), None),
        };
        self.queue_agent_termination(
            id,
            Some(armed.command),
            cwd,
            armed.generation,
            false,
            remember_id,
        );
    }

    /// Reports an approved command that a reset interrupts.
    pub fn record_reset_interrupted_agent_command(&mut self)
        requires
            old(self)@.wf(),
        ensures
            final(self)@.wf(),
            final(self)@ == old(self)@.reset_interrupted(),
    {
        if let Some(i) = self.active_record_index() {
            if let Some(generation) = self.records[i].agent_generation {
                let id = self.records[i].id.clone();
                let command = copy_text(&self.records[i].command);
                let cwd = copy_text(&self.records[i].cwd);
                self.queue_agent_termination(id, command, cwd, generation, true, true);
                return;
            }
        }
        self.record_abandoned_armed_agent_command(true);
    }
}

/// Changing a command but not its captured output keeps the bounds.
pub proof fn lemma_output_kept(records: Seq<RecordModel>, i: int, record: RecordModel)
    requires
        0 <= i < records.len(),
        record.captured_output == records[i].captured_output,
    ensures
        outputs_bounded(records) ==> outputs_bounded(records.update(i, record)),
        captured_total(records.update(i, record)) == captured_total(records),
{
    reveal(outputs_bounded);
    lemma_captured_total_update(records, i, record);
}

} // verus!
