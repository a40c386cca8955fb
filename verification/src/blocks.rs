//! Command blocks as the application sees them: queries, approvals, clearing
//! and undoing it.

use std::collections::VecDeque;
use vstd::prelude::*;

use crate::bounded_text::utf8_len;
use crate::commands::captured_bytes_of;
use crate::commands::captured_len;
use crate::commands::captured_total;
use crate::commands::event_models;
use crate::commands::index_of_id;
use crate::commands::lemma_captured_total_add;
use crate::commands::lemma_captured_total_bounds;
use crate::commands::only_newest_open;
use crate::commands::outputs_bounded;
use crate::commands::record_models;
use crate::commands::ArmedAgentExecution;
use crate::commands::ArmedModel;
use crate::commands::ClearedBlocks;
use crate::commands::CommandRecord;
use crate::commands::CommandState;
use crate::commands::CompletedCommandEvent;
use crate::commands::CompletedCommandOutput;
use crate::commands::CompletedModel;
use crate::commands::CompletionProvenance;
use crate::commands::EventModel;
use crate::commands::LogModel;
use crate::commands::PromptInput;
use crate::commands::RecordModel;
use crate::commands::MAX_COMMAND_MARKS;
use crate::commands::MAX_COMPLETED_COMMAND_OUTPUT_BYTES;
use crate::fields::trim;
use crate::fields::trimmed;
use crate::host::fits_bytes;
use crate::lifecycle::extracted;
use crate::lifecycle::log_with_opened;
use crate::lifecycle::only_log_changed;
use crate::lifecycle::output_registered;
use crate::lifecycle::record_pushed;
use crate::lifecycle::zone_lost;
use crate::lifecycle::PacketModel;
use crate::osc133::all_displayable;
use crate::osc133::is_presentable;
use crate::osc133::text_of;
use crate::osc133::MAX_OSC_133_COMMAND_BYTES;
use crate::provenance::index_consistent;
use crate::provenance::outputs_dropped;
use crate::provenance::BufferAnchor;
use crate::provenance::FinishedOutputProvenance;
use crate::provenance::FinishedOutputRange;
use crate::provenance::FinishedOutputRow;
use crate::scrolling::caches_without;
use crate::state::stash_wf;
use crate::state::TerminalState;
use crate::text::chars_of;
use crate::text::string_of;

verus! {

broadcast use vstd::std_specs::hash::group_hash_axioms;

/// Longest command that can be approved, in bytes.
pub const MAX_AGENT_COMMAND_BYTES: usize = 16384;

/// The newest command, where it is open and in the given state.
pub open spec fn newest_in(records: Seq<RecordModel>, state: CommandState) -> Option<RecordModel> {
    if records.len() > 0 && !records.last().complete && records.last().state == state {
        Some(records.last())
    } else {
        None
    }
}

/// Whether the shell waits at an editable prompt.
pub open spec fn prompt_ready(state: TerminalState) -> bool {
    newest_in(state.log@.records, CommandState::Editing) is Some
}

/// The text that the newest prompt shows as its input; nothing where it is not
/// known.
pub open spec fn visible_input(state: TerminalState) -> Option<Seq<char>> {
    match state.log@.records.last().command_start {
        Some(start) => match extracted(
            state,
            start,
            state.cursor_anchor(),
            MAX_OSC_133_COMMAND_BYTES as int,
        ) {
            Some(text) => Some(text.text),
            None => None,
        },
        None => None,
    }
}

/// The command that runs, as the shell reported it.
pub open spec fn running_text(records: Seq<RecordModel>) -> Option<Seq<char>> {
    match newest_in(records, CommandState::Running) {
        Some(record) => match record.command {
            Some(command) => if trimmed(command).len() > 0 {
                Some(trimmed(command))
            } else {
                None
            },
            None => None,
        },
        None => None,
    }
}

/// How long the running command has run, in milliseconds.
pub open spec fn running_time(records: Seq<RecordModel>, now_ns: u64) -> Option<u64> {
    match newest_in(records, CommandState::Running) {
        Some(record) => match record.started_ns {
            Some(start) => Some(
                if now_ns < start {
                    0
                } else {
                    ((now_ns - start) / 1_000_000) as u64
                },
            ),
            None => None,
        },
        None => None,
    }
}

/// Whether a command is a single line that can be reviewed as shown.
pub open spec fn reviewable(command: Seq<char>) -> bool {
    command.len() > 0 && utf8_len(command) <= MAX_AGENT_COMMAND_BYTES && all_displayable(command)
}

/// Why an approval is refused; nothing where it is not.
pub open spec fn approval_refusal(
    state: TerminalState,
    generation: u64,
    command: Seq<char>,
) -> Option<Seq<char>> {
    let log = state.log@;
    if generation == 0 || command.len() == 0 {
        Some("invalid Agent execution identity"@)
    } else if !reviewable(command) {
        Some("the Agent command is unsafe to review or execute"@)
    } else if log.prompt_input == PromptInput::Tainted {
        Some("the shell prompt already contains local input"@)
    } else if log.armed is Some {
        Some("another Agent command is already armed"@)
    } else if log.records.len() == 0 {
        Some("shell integration has not reported a prompt"@)
    } else if !prompt_ready(state) {
        Some("the shell is not waiting at an editable prompt"@)
    } else {
        match visible_input(state) {
            Some(text) => if trimmed(text).len() == 0 {
                None
            } else {
                Some("the shell prompt is not empty"@)
            },
            None => Some("the shell prompt is not empty"@),
        }
    }
}

/// `post` is `pre` with other contents of the log.
pub open spec fn log_changed(pre: TerminalState, log: LogModel, post: TerminalState) -> bool {
    &&& post.log@ == log
    &&& post == TerminalState { log: post.log, ..pre }
}

/// The reported outputs of a list of events.
pub open spec fn reported(events: Seq<EventModel>) -> Seq<EventModel>
    decreases events.len(),
{
    if events.len() == 0 {
        Seq::empty()
    } else if events.last().completion_provenance == CompletionProvenance::ShellReported {
        reported(events.drop_last()).push(events.last())
    } else {
        reported(events.drop_last())
    }
}

/// What the events report.
pub open spec fn completed_of(events: Seq<EventModel>) -> Seq<CompletedModel> {
    Seq::new(events.len(), |i: int| events[i].completed)
}

/// Finished commands as values.
pub open spec fn completed_models(outputs: Seq<CompletedCommandOutput>) -> Seq<CompletedModel> {
    Seq::new(outputs.len(), |i: int| outputs[i]@)
}

impl TerminalState {
    /// The commands, newest last.
    pub fn command_records(&self) -> (records: &VecDeque<CommandRecord>)
        ensures
            record_models(records@) == self.log@.records,
    {
        &self.log.records
    }

    /// The newest command with an id.
    pub fn command_record(&self, id: &str) -> (record: Option<&CommandRecord>)
        ensures
            match (index_of_id(self.log@.records, id@), record) {
                (Some(i), Some(record)) => record@ == self.log@.records[i],
                (None, None) => true,
                _ => false,
            },
    {
        let name = id.to_string();
        match self.log.record_index_for_id(&name) {
            Some(i) => Some(&self.log.records[i]),
            None => None,
        }
    }

    /// Whether the shell waits at an editable prompt.
    pub fn shell_is_prompt_ready(&self) -> (ready: bool)
        ensures
            ready == prompt_ready(*self),
    {
        let n: usize = self.log.records.len();
        assert(self.log@.records.len() == n);
        n > 0 && !self.log.records[n - 1].complete && self.log.records[n - 1].state
            == CommandState::Editing
    }

    /// Whether any prompt was seen.
    pub fn has_prompt_marks(&self) -> (seen: bool)
        ensures
            seen == (self.log@.records.len() > 0 || self.command_marks@.len() > 0),
    {
        self.log.records.len() > 0 || self.command_marks.len() > 0
    }

    /// The input text that the newest prompt shows.
    fn read_visible_input(&self) -> (text: Option<Vec<char>>)
        requires
            self.core_wf(),
            self.log@.records.len() > 0,
        ensures
            match (visible_input(*self), text) {
                (Some(expected), Some(text)) => expected == text@,
                (None, None) => true,
                _ => false,
            },
    {
        let n: usize = self.log.records.len();
        assert(self.log@.records[n - 1] == self.log.records@[n - 1]@);
        match self.log.records[n - 1].command_start {
            Some(start) => {
                let end = self.current_buffer_anchor();
                match self.extract_text_range(start, end, MAX_OSC_133_COMMAND_BYTES) {
                    Some(text) => Some(chars_of(text.text.as_str())),
                    None => None,
                }
            },
            None => None,
        }
    }

    /// Whether the prompt is known to hold no input.
    pub fn prompt_input_is_empty(&self) -> (empty: bool)
        requires
            self.core_wf(),
        ensures
            empty == (self.log@.prompt_input == PromptInput::Clean && prompt_ready(*self)
                && match visible_input(*self) {
                Some(text) => text.len() == 0,
                None => false,
            }),
    {
        if self.log.prompt_input == PromptInput::Tainted || !self.shell_is_prompt_ready() {
            return false;
        }
        match self.read_visible_input() {
            Some(text) => text.len() == 0,
            None => false,
        }
    }

    /// The command that runs.
    pub fn running_command(&self) -> (command: Option<String>)
        ensures
            text_of(command) == running_text(self.log@.records),
    {
        let n: usize = self.log.records.len();
        if n == 0 {
            return None;
        }
        let record = &self.log.records[n - 1];
        assert(self.log@.records[n - 1] == record@);
        if record.complete || record.state != CommandState::Running {
            return None;
        }
        match &record.command {
            Some(command) => {
                let text = trim(&chars_of(command.as_str()));
                if text.len() > 0 {
                    Some(string_of(&text))
                } else {
                    None
                }
            },
            None => None,
        }
    }

    /// How long the running command has run at a given time.
    pub fn running_duration_ms_at(&self, now_ns: u64) -> (duration: Option<u64>)
        ensures
            duration == running_time(self.log@.records, now_ns),
    {
        let n: usize = self.log.records.len();
        if n == 0 {
            return None;
        }
        let record = &self.log.records[n - 1];
        assert(self.log@.records[n - 1] == record@);
        if record.complete || record.state != CommandState::Running {
            return None;
        }
        match record.started_ns {
            Some(start) => Some(
                if now_ns < start {
                    0
                } else {
                    (now_ns - start) / 1_000_000
                },
            ),
            None => None,
        }
    }

    /// How long the running command has run.
    pub fn running_duration_ms(&self) -> (duration: Option<u64>)
        ensures
            exists|now_ns: u64| duration == #[trigger] running_time(self.log@.records, now_ns),
    {
        let now = self.read_clock();
        self.running_duration_ms_at(now.monotonic_ns)
    }

    /// Input that does not come from an approval reaches the prompt.
    pub fn note_user_input(&mut self, input: &[u8])
        requires
            old(self).core_wf(),
        ensures
            final(self).core_wf(),
            log_changed(
                *old(self),
                if input@.len() > 0 && prompt_ready(*old(self)) {
                    LogModel { prompt_input: PromptInput::Tainted, ..old(self).log@ }
                } else {
                    old(self).log@
                },
                *final(self),
            ),
    {
        if input.len() > 0 && self.shell_is_prompt_ready() {
            self.log.prompt_input = PromptInput::Tainted;
        }
    }

    /// Why an approval is refused.
    fn refuse_approval(&self, generation: u64, command: &str) -> (refusal: Option<&'static str>)
        requires
            self.core_wf(),
        ensures
            match (approval_refusal(*self, generation, command@), refusal) {
                (Some(expected), Some(refusal)) => expected == refusal@,
                (None, None) => true,
                _ => false,
            },
    {
        let chars = chars_of(command);
        if generation == 0 || chars.len() == 0 {
            return Some("invalid Agent execution identity");
        }
        if !fits_bytes(&chars, MAX_AGENT_COMMAND_BYTES) || !is_presentable(command) {
            return Some("the Agent command is unsafe to review or execute");
        }
        if self.log.prompt_input == PromptInput::Tainted {
            return Some("the shell prompt already contains local input");
        }
        if self.log.armed.is_some() {
            return Some("another Agent command is already armed");
        }
        if self.log.records.len() == 0 {
            return Some("shell integration has not reported a prompt");
        }
        if !self.shell_is_prompt_ready() {
            return Some("the shell is not waiting at an editable prompt");
        }
        match self.read_visible_input() {
            Some(text) => {
                let kept = trim(&text);
                if kept.len() == 0 {
                    None
                } else {
                    Some("the shell prompt is not empty")
                }
            },
            None => Some("the shell prompt is not empty"),
        }
    }

    /// Arms one approved command on the current empty prompt, or says why not.
    pub fn arm_agent_execution(&mut self, generation: u64, command: &str) -> (result: Result<
        (),
        &'static str,
    >)
        requires
            old(self).core_wf(),
        ensures
            final(self).core_wf(),
            match (approval_refusal(*old(self), generation, command@), result) {
                (Some(refusal), Err(error)) => refusal == error@ && *final(self) == *old(self),
                (None, Ok(_)) => log_changed(
                    *old(self),
                    LogModel {
                        armed: Some(
                            ArmedModel {
                                generation,
                                command_sequence: old(self).log@.records.last().sequence,
                                command: command@,
                            },
                        ),
                        ..old(self).log@
                    },
                    *final(self),
                ),
                _ => false,
            },
    {
        if let Some(refusal) = self.refuse_approval(generation, command) {
            return Err(refusal);
        }
        let n: usize = self.log.records.len();
        assert(self.log@.records[n - 1] == self.log.records@[n - 1]@);
        let command_sequence: u64 = self.log.records[n - 1].sequence;
        self.log.armed = Some(
            ArmedAgentExecution { generation, command_sequence, command: command.to_string() },
        );
        Ok(())
    }

    /// Withdraws an approval.
    pub fn disarm_agent_execution(&mut self, generation: u64)
        requires
            old(self).core_wf(),
        ensures
            final(self).core_wf(),
            log_changed(
                *old(self),
                match old(self).log@.armed {
                    Some(armed) => if armed.generation == generation {
                        LogModel { armed: None, ..old(self).log@ }
                    } else {
                        old(self).log@
                    },
                    None => old(self).log@,
                },
                *final(self),
            ),
    {
        let matches = match &self.log.armed {
            Some(armed) => armed.generation == generation,
            None => false,
        };
        if matches {
            self.log.armed = None;
        }
    }

    /// Hands out the completion events.
    pub fn take_completed_command_events(&mut self) -> (events: Vec<CompletedCommandEvent>)
        requires
            old(self).core_wf(),
        ensures
            final(self).core_wf(),
            event_models(events@) == old(self).log@.events,
            log_changed(
                *old(self),
                LogModel { events: Seq::empty(), ..old(self).log@ },
                *final(self),
            ),
    {
        let mut queue: VecDeque<CompletedCommandEvent> = VecDeque::new();
        std::mem::swap(&mut queue, &mut self.log.events);
        assert(event_models(self.log.events@) =~= Seq::<EventModel>::empty());
        let ghost all = queue@;
        let mut events: Vec<CompletedCommandEvent> = Vec::new();
        while queue.len() > 0
            invariant
                all == events@ + queue@,
            decreases queue@.len(),
        {
            match queue.pop_front() {
                Some(event) => {
                    let ghost before = events@;
                    events.push(event);
                    assert(all =~= events@ + queue@);
                },
                None => {},
            }
        }
        assert(events@ =~= all);
        events
    }

    /// Hands out the outputs of the commands whose end the shell reported, and
    /// drops the other events.
    pub fn take_completed_command_outputs(&mut self) -> (outputs: Vec<CompletedCommandOutput>)
        requires
            old(self).core_wf(),
        ensures
            final(self).core_wf(),
            completed_models(outputs@) == completed_of(reported(old(self).log@.events)),
            log_changed(
                *old(self),
                LogModel { events: Seq::empty(), ..old(self).log@ },
                *final(self),
            ),
    {
        let mut queue: VecDeque<CompletedCommandEvent> = VecDeque::new();
        std::mem::swap(&mut queue, &mut self.log.events);
        assert(event_models(self.log.events@) =~= Seq::<EventModel>::empty());
        let ghost all = event_models(queue@);
        let ghost start = queue@;
        let mut outputs: Vec<CompletedCommandOutput> = Vec::new();
        let ghost mut done: int = 0;
        assert(all.take(0) =~= Seq::<EventModel>::empty());
        assert(completed_models(outputs@) =~= completed_of(reported(all.take(0))));
        assert(start.skip(0) =~= start);
        while queue.len() > 0
            invariant
                0 <= done <= start.len(),
                all == event_models(start),
                queue@ == start.skip(done),
                completed_models(outputs@) == completed_of(reported(all.take(done))),
            decreases queue@.len(),
        {
            match queue.pop_front() {
                Some(event) => {
                    assert(event == start[done]);
                    assert(all.take(done + 1).drop_last() =~= all.take(done));
                    assert(all.take(done + 1).last() == event@);
                    let ghost before = outputs@;
                    let ghost earlier = reported(all.take(done));
                    if event.completion_provenance == CompletionProvenance::ShellReported {
                        outputs.push(event.completed);
                        assert(completed_models(outputs@) =~= completed_models(before).push(
                            event@.completed,
                        ));
                        assert(completed_of(earlier.push(event@)) =~= completed_of(earlier).push(
                            event@.completed,
                        ));
                    }
                    proof {
                        done = done + 1;
                    }
                    assert(queue@ =~= start.skip(done));
                },
                None => {},
            }
        }
        assert(done == start.len());
        assert(all.take(done) =~= all);
        outputs
    }

    /// How often the index of finished outputs changed.
    pub fn finished_output_revision(&self) -> (revision: u64)
        ensures
            revision == self.provenance.revision,
    {
        self.provenance.revision
    }
}


/// Whether a complete command has a number.
pub open spec fn has_complete(records: Seq<RecordModel>, sequence: u64) -> bool {
    exists|i: int|
        0 <= i < records.len() && (#[trigger] records[i]).sequence == sequence
            && records[i].complete
}

/// Whether the rows of a finished output are all retained, from absolute row
/// `first` on, and its range lies within them.
pub open spec fn output_retained(
    state: TerminalState,
    output: FinishedOutputProvenance,
    first: int,
) -> bool {
    let rows = output.rows@;
    let lines = state.document();
    let last = first + rows.len() - 1;
    &&& 0 <= first
    &&& last < lines.len()
    &&& forall|k: int| 0 <= k < rows.len() ==> lines[first + k].id == (#[trigger] rows[k]).row_id
    &&& lines[first].id == output.range.start.row
    &&& lines[last].id == output.range.end.row
    &&& output.range.start.col <= lines[first].cells.len()
    &&& output.range.end.col <= lines[last].cells.len()
    &&& first < last || output.range.start.col < output.range.end.col
}

/// The exact cells of a finished output, while every one of its rows is
/// retained.
pub open spec fn finished_range(state: TerminalState, zone: u64) -> Option<FinishedOutputRange> {
    if !has_complete(state.log@.records, zone) || !state.provenance.zones@.contains_key(zone) {
        None
    } else {
        let output = state.provenance.zones@[zone];
        let expected = BufferAnchor {
            line_id: output.start_line_id,
            column: output.range.start.col,
        };
        if output.range.zone_id != zone || output.rows@.len() == 0 {
            None
        } else {
            match state.row_of_id(output.range.start.row, Some(expected)) {
                Some(first) => if output_retained(state, output, first) {
                    Some(output.range)
                } else {
                    None
                },
                None => None,
            }
        }
    }
}

impl TerminalState {
    /// Whether a complete command has a number.
    fn is_complete(&self, sequence: u64) -> (yes: bool)
        ensures
            yes == has_complete(self.log@.records, sequence),
    {
        let ghost records = self.log@.records;
        let mut i: usize = 0;
        while i < self.log.records.len()
            invariant
                i <= records.len(),
                records == self.log@.records,
                records == record_models(self.log.records@),
                forall|k: int|
                    0 <= k < i ==> !((#[trigger] records[k]).sequence == sequence
                        && records[k].complete),
            decreases self.log.records.len() - i,
        {
            assert(records[i as int] == self.log.records@[i as int]@);
            if self.log.records[i].sequence == sequence && self.log.records[i].complete {
                return true;
            }
            i = i + 1;
        }
        false
    }

    /// Whether the rows of a finished output are retained.
    fn output_is_retained(&self, output: &FinishedOutputProvenance, first: usize) -> (yes: bool)
        requires
            self.core_wf(),
            first < self.document().len(),
            output.rows@.len() > 0,
        ensures
            yes == output_retained(*self, *output, first as int),
    {
        let count: usize = output.rows.len();
        let ghost lines = self.document();
        let mut k: usize = 0;
        while k < count
            invariant
                self.core_wf(),
                lines == self.document(),
                k <= count,
                count == output.rows@.len(),
                first + k <= lines.len(),
                lines.len() <= usize::MAX,
                forall|n: int|
                    0 <= n < k ==> lines[first + n].id == (#[trigger] output.rows@[n]).row_id,
            decreases count - k,
        {
            let row: usize = match first.checked_add(k) {
                Some(row) => row,
                None => {
                    return false;
                },
            };
            match self.raw_row_id_at_absolute(row) {
                Some(id) => {
                    if id != output.rows[k].row_id {
                        assert(lines[first + k].id != output.rows@[k as int].row_id);
                        return false;
                    }
                },
                None => {
                    return false;
                },
            }
            k = k + 1;
        }
        let last: usize = first + (count - 1);
        match (self.retained_raw_row(first), self.retained_raw_row(last)) {
            (Some((start_id, start_width)), Some((end_id, end_width))) => {
                start_id == output.range.start.row && end_id == output.range.end.row
                    && output.range.start.col <= start_width && output.range.end.col <= end_width
                    && (first < last || output.range.start.col < output.range.end.col)
            },
            _ => false,
        }
    }

    /// The exact cells of a finished output. A row that was evicted, replaced
    /// or reshaped leaves nothing.
    pub fn finished_output_range(&self, zone_id: u64) -> (range: Option<FinishedOutputRange>)
        requires
            self.core_wf(),
        ensures
            range == finished_range(*self, zone_id),
    {
        if !self.is_complete(zone_id) {
            return None;
        }
        match self.provenance.zones.get(&zone_id) {
            Some(output) => {
                if output.range.zone_id != zone_id || output.rows.len() == 0 {
                    return None;
                }
                let expected = BufferAnchor {
                    line_id: output.start_line_id,
                    column: output.range.start.col,
                };
                match self.retained_raw_row_absolute(output.range.start.row, Some(expected)) {
                    Some((first, _)) => {
                        if self.output_is_retained(output, first) {
                            Some(output.range)
                        } else {
                            None
                        }
                    },
                    None => None,
                }
            },
            None => None,
        }
    }
}

/// The complete commands of a list, in order.
pub open spec fn complete_of(records: Seq<RecordModel>) -> Seq<RecordModel>
    decreases records.len(),
{
    if records.len() == 0 {
        Seq::empty()
    } else if records.last().complete {
        complete_of(records.drop_last()).push(records.last())
    } else {
        complete_of(records.drop_last())
    }
}

/// The open commands of a list, in order.
pub open spec fn open_of(records: Seq<RecordModel>) -> Seq<RecordModel>
    decreases records.len(),
{
    if records.len() == 0 {
        Seq::empty()
    } else if records.last().complete {
        open_of(records.drop_last())
    } else {
        open_of(records.drop_last()).push(records.last())
    }
}

/// The numbers of a list of commands.
pub open spec fn sequences_of(records: Seq<RecordModel>) -> Seq<u64> {
    Seq::new(records.len(), |i: int| records[i].sequence)
}

/// A finished output as a value.
pub struct OutputModel {
    pub range: FinishedOutputRange,
    pub start_line_id: u64,
    pub rows: Seq<FinishedOutputRow>,
}

impl View for FinishedOutputProvenance {
    type V = OutputModel;

    open spec fn view(&self) -> OutputModel {
        OutputModel {
            range: self.range,
            start_line_id: self.start_line_id,
            rows: self.rows@,
        }
    }
}

/// Finished outputs as values.
pub open spec fn output_models(list: Seq<FinishedOutputProvenance>) -> Seq<OutputModel> {
    Seq::new(list.len(), |i: int| list[i]@)
}

/// The known outputs of a list of commands, each once.
pub open spec fn outputs_of(
    zones: Map<u64, FinishedOutputProvenance>,
    records: Seq<RecordModel>,
) -> Seq<OutputModel>
    decreases records.len(),
{
    if records.len() == 0 {
        Seq::empty()
    } else {
        let before = outputs_of(zones, records.drop_last());
        let zone = records.last().sequence;
        if zones.contains_key(zone) && !sequences_of(records.drop_last()).contains(zone) {
            before.push(zones[zone]@)
        } else {
            before
        }
    }
}

/// `post` is `pre` after every complete command was cleared. Where there is
/// none, an earlier stash stays.
pub open spec fn blocks_cleared(pre: TerminalState, post: TerminalState) -> bool {
    let gone = complete_of(pre.log@.records);
    let kept = open_of(pre.log@.records);
    let zones = sequences_of(gone).to_set();
    if gone.len() == 0 {
        post == pre
    } else {
        &&& post.log@ == (LogModel {
            records: kept,
            captured_bytes: captured_total(kept) as usize,
            ..pre.log@
        })
        &&& outputs_dropped(pre.provenance, zones, post.provenance)
        &&& post.provenance.active == pre.provenance.active
        &&& post.caches == caches_without(pre.caches, pre.provenance, zones)
        &&& match post.cleared_blocks {
            Some(blocks) => {
                &&& record_models(blocks.records@) == gone
                &&& output_models(blocks.provenance@) == outputs_of(pre.provenance.zones@, gone)
                &&& blocks.captured_bytes == captured_total(gone)
            },
            None => false,
        }
        &&& post == TerminalState {
            log: post.log,
            provenance: post.provenance,
            caches: post.caches,
            cleared_blocks: post.cleared_blocks,
            ..pre
        }
    }
}

/// Splitting a list keeps its limits.
proof fn lemma_split(records: Seq<RecordModel>)
    ensures
        complete_of(records).len() + open_of(records).len() == records.len(),
        captured_total(complete_of(records)) + captured_total(open_of(records))
            == captured_total(records),
        outputs_bounded(records) ==> outputs_bounded(complete_of(records)) && outputs_bounded(
            open_of(records),
        ),
        forall|i: int|
            0 <= i < complete_of(records).len() ==> (#[trigger] complete_of(records)[i]).complete,
    decreases records.len(),
{
    reveal(outputs_bounded);
    if records.len() > 0 {
        let head = records.drop_last();
        lemma_split(head);
        let gone = complete_of(head);
        let kept = open_of(head);
        assert(forall|i: int| 0 <= i < head.len() ==> #[trigger] head[i] == records[i]);
        assert(gone.push(records.last()).drop_last() =~= gone);
        assert(kept.push(records.last()).drop_last() =~= kept);
    }
}

/// A copy of a finished output.
fn copy_output(output: &FinishedOutputProvenance) -> (copy: FinishedOutputProvenance)
    ensures
        copy@ == output@,
{
    let mut rows: Vec<FinishedOutputRow> = Vec::new();
    let mut i: usize = 0;
    while i < output.rows.len()
        invariant
            i <= output.rows@.len(),
            rows@ == output.rows@.take(i as int),
        decreases output.rows.len() - i,
    {
        rows.push(output.rows[i]);
        i = i + 1;
        assert(rows@ =~= output.rows@.take(i as int));
    }
    assert(rows@ =~= output.rows@);
    FinishedOutputProvenance { range: output.range, start_line_id: output.start_line_id, rows }
}

/// Whether a list holds a number.
fn holds_number(list: &Vec<u64>, n: u64) -> (yes: bool)
    ensures
        yes == list@.contains(n),
{
    let mut i: usize = 0;
    while i < list.len()
        invariant
            i <= list@.len(),
            forall|k: int| 0 <= k < i ==> list@[k] != n,
        decreases list.len() - i,
    {
        if list[i] == n {
            assert(list@[i as int] == n);
            return true;
        }
        i = i + 1;
    }
    false
}

impl TerminalState {
    /// Takes the complete commands out of the log.
    fn split_records(&mut self) -> (gone: Vec<CommandRecord>)
        ensures
            record_models(gone@) == complete_of(old(self).log@.records),
            final(self).log@ == (LogModel {
                records: open_of(old(self).log@.records),
                ..old(self).log@
            }),
            *final(self) == (TerminalState { log: final(self).log, ..*old(self) }),
    {
        let ghost all = self.log@.records;
        let mut rest: VecDeque<CommandRecord> = VecDeque::new();
        std::mem::swap(&mut rest, &mut self.log.records);
        let ghost start = rest@;
        assert(record_models(start) == all);
        let mut gone: Vec<CommandRecord> = Vec::new();
        let mut kept: VecDeque<CommandRecord> = VecDeque::new();
        let n: usize = rest.len();
        let mut i: usize = 0;
        assert(all.take(0) =~= Seq::<RecordModel>::empty());
        assert(record_models(gone@) =~= Seq::<RecordModel>::empty());
        assert(record_models(kept@) =~= Seq::<RecordModel>::empty());
        assert(start.skip(0) =~= start);
        while i < n
            invariant
                i <= n,
                n == start.len(),
                all == record_models(start),
                rest@ == start.skip(i as int),
                record_models(gone@) == complete_of(all.take(i as int)),
                record_models(kept@) == open_of(all.take(i as int)),
            decreases n - i,
        {
            let record = rest.pop_front().unwrap();
            assert(record == start[i as int]);
            assert(rest@ =~= start.skip(i + 1));
            assert(all.take(i + 1).drop_last() =~= all.take(i as int));
            assert(all.take(i + 1).last() == record@);
            let ghost before = (gone@, kept@);
            let ghost model = record@;
            if record.complete {
                gone.push(record);
                assert(record_models(gone@) =~= record_models(before.0).push(model));
            } else {
                kept.push_back(record);
                assert(record_models(kept@) =~= record_models(before.1).push(model));
            }
            i = i + 1;
        }
        assert(all.take(i as int) =~= all);
        self.log.records = kept;
        gone
    }

    /// Copies the known outputs of a list of commands, and lists their numbers.
    fn collect_outputs(&self, records: &Vec<CommandRecord>) -> (found: (
        Vec<FinishedOutputProvenance>,
        Vec<u64>,
    ))
        ensures
            output_models(found.0@) == outputs_of(
                self.provenance.zones@,
                record_models(records@),
            ),
            found.1@ == sequences_of(record_models(records@)),
    {
        let ghost all = record_models(records@);
        let mut outputs: Vec<FinishedOutputProvenance> = Vec::new();
        let mut numbers: Vec<u64> = Vec::new();
        let mut i: usize = 0;
        assert(all.take(0) =~= Seq::<RecordModel>::empty());
        assert(output_models(outputs@) =~= Seq::<OutputModel>::empty());
        while i < records.len()
            invariant
                i <= records@.len(),
                all == record_models(records@),
                output_models(outputs@) == outputs_of(
                    self.provenance.zones@,
                    all.take(i as int),
                ),
                numbers@ == sequences_of(all.take(i as int)),
            decreases records.len() - i,
        {
            let zone: u64 = records[i].sequence;
            assert(all.take(i + 1).drop_last() =~= all.take(i as int));
            assert(all.take(i + 1).last() == records@[i as int]@);
            let ghost before = outputs@;
            if !holds_number(&numbers, zone) {
                if let Some(output) = self.provenance.zones.get(&zone) {
                    let copy = copy_output(output);
                    outputs.push(copy);
                    assert(output_models(outputs@) =~= output_models(before).push(
                        self.provenance.zones@[zone]@,
                    ));
                }
            }
            numbers.push(zone);
            assert(numbers@ =~= sequences_of(all.take(i + 1)));
            i = i + 1;
        }
        assert(all.take(i as int) =~= all);
        (outputs, numbers)
    }

    /// Forgets the outputs of the listed commands.
    fn drop_outputs(&mut self, numbers: &Vec<u64>)
        requires
            old(self).provenance.wf(),
        ensures
            final(self).provenance.wf(),
            outputs_dropped(old(self).provenance, numbers@.to_set(), final(self).provenance),
            final(self).provenance.active == old(self).provenance.active,
            final(self).caches == caches_without(
                old(self).caches,
                old(self).provenance,
                numbers@.to_set(),
            ),
            *final(self) == (TerminalState {
                provenance: final(self).provenance,
                caches: final(self).caches,
                ..*old(self)
            }),
            old(self).caches.wf() ==> final(self).caches.wf(),
    {
        if self.provenance.unregister_all(numbers) {
            self.caches.drop_plans();
        }
    }

    /// Clears every complete command and keeps it for undoing. The result is
    /// how many were cleared.
    pub fn clear_completed_blocks(&mut self) -> (cleared: usize)
        requires
            old(self).core_wf(),
        ensures
            final(self).core_wf(),
            blocks_cleared(*old(self), *final(self)),
            cleared == complete_of(old(self).log@.records).len(),
    {
        let ghost all = self.log@.records;
        proof {
            lemma_split(all);
        }
        if !self.any_complete() {
            return 0;
        }
        proof {
            lemma_newest_split(all);
        }
        let ghost gone_models = complete_of(all);
        let gone = self.split_records();
        let count: usize = gone.len();
        assert(gone_models.len() == count);
        proof {
            lemma_captured_total_bounds(gone_models);
            lemma_captured_total_bounds(open_of(all));
        }
        let captured_bytes: usize = captured_sum(&gone);
        self.log.captured_bytes = self.log.captured_bytes - captured_bytes;
        let (outputs, numbers) = self.collect_outputs(&gone);
        self.drop_outputs(&numbers);
        self.cleared_blocks = Some(
            ClearedBlocks { records: gone, provenance: outputs, captured_bytes },
        );
        proof {
            reveal(stash_wf);
        }
        count
    }

    /// Whether any command is complete.
    fn any_complete(&self) -> (yes: bool)
        ensures
            yes == (complete_of(self.log@.records).len() > 0),
    {
        let ghost all = self.log@.records;
        let mut i: usize = 0;
        assert(all.take(0) =~= Seq::<RecordModel>::empty());
        while i < self.log.records.len()
            invariant
                i <= all.len(),
                all == self.log@.records,
                all == record_models(self.log.records@),
                complete_of(all.take(i as int)).len() == 0,
            decreases self.log.records.len() - i,
        {
            assert(all.take(i + 1).drop_last() =~= all.take(i as int));
            assert(all.take(i + 1).last() == self.log.records@[i as int]@);
            if self.log.records[i].complete {
                proof {
                    lemma_complete_grows(all, i + 1);
                }
                return true;
            }
            i = i + 1;
        }
        assert(all.take(i as int) =~= all);
        false
    }
}

/// Later commands only add to the complete ones.
proof fn lemma_complete_grows(records: Seq<RecordModel>, n: int)
    requires
        0 <= n <= records.len(),
    ensures
        complete_of(records.take(n)).len() <= complete_of(records).len(),
    decreases records.len() - n,
{
    if n < records.len() {
        assert(records.take(n + 1).drop_last() =~= records.take(n));
        lemma_complete_grows(records, n + 1);
    } else {
        assert(records.take(n) =~= records);
    }
}

/// Captured bytes of a list of commands.
fn captured_sum(records: &Vec<CommandRecord>) -> (n: usize)
    requires
        outputs_bounded(record_models(records@)),
        records@.len() <= MAX_COMMAND_MARKS,
    ensures
        n == captured_total(record_models(records@)),
{
    let ghost all = record_models(records@);
    let mut n: usize = 0;
    let mut i: usize = 0;
    assert(all.take(0) =~= Seq::<RecordModel>::empty());
    while i < records.len()
        invariant
            i <= records@.len(),
            records@.len() <= MAX_COMMAND_MARKS,
            all == record_models(records@),
            outputs_bounded(all),
            n == captured_total(all.take(i as int)),
            n <= i * 262144,
        decreases records.len() - i,
    {
        proof {
            reveal(outputs_bounded);
        }
        assert(all.take(i + 1).drop_last() =~= all.take(i as int));
        assert(all.take(i + 1).last() == records@[i as int]@);
        assert(all[i as int] == records@[i as int]@);
        n = n + captured_bytes_of(&records[i]);
        i = i + 1;
    }
    assert(all.take(i as int) =~= all);
    n
}


/// `post` is `pre` after the outputs from `i` on were recorded again.
pub open spec fn outputs_restored(
    pre: TerminalState,
    outputs: Seq<OutputModel>,
    i: int,
    post: TerminalState,
) -> bool
    decreases outputs.len() - i,
{
    if i >= outputs.len() {
        post == pre
    } else {
        exists|output: FinishedOutputProvenance, mid: TerminalState|
            {
                &&& output@ == outputs[i]
                &&& #[trigger] output_registered(pre, output, mid)
                &&& outputs_restored(mid, outputs, i + 1, post)
            }
    }
}

/// How many of `n` commands must leave to keep the limit.
pub open spec fn overfull(n: int) -> int {
    if n > MAX_COMMAND_MARKS {
        n - MAX_COMMAND_MARKS
    } else {
        0
    }
}

/// `post` is `pre` with other commands in its log, the outputs of `gone` being
/// forgotten.
pub open spec fn records_replaced(
    pre: TerminalState,
    records: Seq<RecordModel>,
    gone: Seq<RecordModel>,
    post: TerminalState,
) -> bool {
    let zones = sequences_of(gone).to_set();
    &&& post.log@ == (LogModel {
        records,
        captured_bytes: captured_total(records) as usize,
        ..pre.log@
    })
    &&& outputs_dropped(pre.provenance, zones, post.provenance)
    &&& post.provenance.active == pre.provenance.active
    &&& post.caches == caches_without(pre.caches, pre.provenance, zones)
    &&& post == TerminalState {
        log: post.log,
        provenance: post.provenance,
        caches: post.caches,
        ..pre
    }
}

/// `post` is `pre` after a clearing was undone: the cleared commands come
/// first, and the oldest of them leave where the log would be too long.
pub open spec fn blocks_restored(pre: TerminalState, post: TerminalState) -> bool {
    match pre.cleared_blocks {
        None => post == pre,
        Some(blocks) => {
            let all = record_models(blocks.records@) + pre.log@.records;
            let n = overfull(all.len() as int);
            exists|mid: TerminalState|
                {
                    &&& #[trigger] outputs_restored(
                        without_stash(pre),
                        output_models(blocks.provenance@),
                        0,
                        mid,
                    )
                    &&& records_replaced(mid, all.skip(n), all.take(n), post)
                }
        },
    }
}

/// How many cleared commands undoing brings back: those that fit.
pub open spec fn restorable(state: TerminalState) -> int {
    match state.cleared_blocks {
        None => 0,
        Some(blocks) => blocks.records@.len() - overfull(
            (blocks.records@.len() + state.log@.records.len()) as int,
        ),
    }
}

/// The state without cleared commands.
pub open spec fn without_stash(state: TerminalState) -> TerminalState {
    TerminalState { cleared_blocks: None, ..state }
}

/// Puts commands in front of others.
fn put_in_front(records: Vec<CommandRecord>, later: VecDeque<CommandRecord>) -> (list: VecDeque<
    CommandRecord,
>)
    ensures
        list@ == records@ + later@,
{
    let ghost items = records@ + later@;
    let mut front = records;
    let mut list = later;
    while front.len() > 0
        invariant
            front@ + list@ == items,
        decreases front.len(),
    {
        if let Some(record) = front.pop() {
            list.push_front(record);
        }
        assert(front@ + list@ =~= items);
    }
    assert(list@ =~= items);
    list
}

/// Takes the first `n` commands out of a list.
fn take_oldest(list: &mut VecDeque<CommandRecord>, n: usize) -> (gone: Vec<CommandRecord>)
    requires
        n <= old(list)@.len(),
    ensures
        gone@ == old(list)@.take(n as int),
        final(list)@ == old(list)@.skip(n as int),
{
    let ghost items = list@;
    let mut gone: Vec<CommandRecord> = Vec::new();
    let mut i: usize = 0;
    assert(items.skip(0) =~= items);
    assert(items.take(0) =~= Seq::<CommandRecord>::empty());
    while i < n
        invariant
            i <= n <= items.len(),
            list@ == items.skip(i as int),
            gone@ == items.take(i as int),
        decreases n - i,
    {
        let record = list.pop_front().unwrap();
        gone.push(record);
        i = i + 1;
        assert(list@ =~= items.skip(i as int));
        assert(gone@ =~= items.take(i as int));
    }
    gone
}

impl TerminalState {
    /// Records outputs again.
    fn restore_outputs(&mut self, outputs: Vec<FinishedOutputProvenance>)
        requires
            old(self).core_wf(),
        ensures
            final(self).core_wf(),
            outputs_restored(*old(self), output_models(outputs@), 0, *final(self)),
            final(self).log == old(self).log,
            final(self).cleared_blocks == old(self).cleared_blocks,
    {
        let ghost list = output_models(outputs@);
        let ghost start = *self;
        let ghost items = outputs@;
        let mut rest = outputs;
        let n: usize = rest.len();
        let mut i: usize = 0;
        assert(items.skip(0) =~= items);
        while i < n
            invariant
                i <= n,
                n == items.len(),
                list == output_models(items),
                rest@ == items.skip(i as int),
                self.core_wf(),
                self.log == start.log,
                self.cleared_blocks == start.cleared_blocks,
                forall|post: TerminalState|
                    #[trigger] outputs_restored(*self, list, i as int, post) ==> outputs_restored(
                        start,
                        list,
                        0,
                        post,
                    ),
            decreases n - i,
        {
            let ghost before = *self;
            let output = rest.remove(0);
            assert(output == items[i as int]);
            assert(rest@ =~= items.skip(i + 1));
            let ghost model = output;
            self.register_finished_output_provenance(output);
            i = i + 1;
            assert forall|post: TerminalState| #[trigger]
                outputs_restored(*self, list, i as int, post) implies outputs_restored(
                start,
                list,
                0,
                post,
            ) by {
                assert(model@ == list[i - 1]);
                assert(output_registered(before, model, *self));
                assert(outputs_restored(before, list, i - 1, post));
            }
        }
        assert(outputs_restored(*self, list, n as int, *self));
    }

    /// Brings cleared commands back in front of the others.
    #[verifier::rlimit(30)]
    fn prepend_records(&mut self, records: Vec<CommandRecord>) -> (restored: usize)
        requires
            old(self).core_wf(),
            records@.len() <= MAX_COMMAND_MARKS,
            outputs_bounded(record_models(records@)),
            forall|i: int|
                0 <= i < records@.len() ==> (#[trigger] record_models(records@)[i]).complete,
        ensures
            final(self).core_wf(),
            ({
                let all = record_models(records@) + old(self).log@.records;
                let n = overfull(all.len() as int);
                &&& records_replaced(*old(self), all.skip(n), all.take(n), *final(self))
                &&& restored == records@.len() - n
            }),
    {
        let ghost front = record_models(records@);
        let ghost back = self.log@.records;
        let ghost all = front + back;
        let mut later: VecDeque<CommandRecord> = VecDeque::new();
        std::mem::swap(&mut later, &mut self.log.records);
        let front_len: usize = records.len();
        let front_bytes: usize = captured_sum(&records);
        let mut list = put_in_front(records, later);
        assert(record_models(list@) =~= all);
        let total: usize = list.len();
        let gone_len: usize = if total > MAX_COMMAND_MARKS {
            total - MAX_COMMAND_MARKS
        } else {
            0
        };
        let gone = take_oldest(&mut list, gone_len);
        let ghost kept = all.skip(gone_len as int);
        assert(record_models(list@) =~= kept);
        assert(record_models(gone@) =~= all.take(gone_len as int));
        proof {
            lemma_prepended(front, back, gone_len as int);
        }
        let captured: usize = self.log.captured_bytes + front_bytes - captured_sum(&gone);
        let (_outputs, numbers) = self.collect_outputs(&gone);
        self.log.records = list;
        self.log.captured_bytes = captured;
        assert(self.log@ == LogModel {
            records: kept,
            captured_bytes: captured_total(kept) as usize,
            ..old(self).log@
        });
        self.drop_outputs(&numbers);
        front_len - gone_len
    }

    /// Undoes the last clearing. The result is how many commands came back.
    pub fn undo_clear_blocks(&mut self) -> (restored: usize)
        requires
            old(self).core_wf(),
        ensures
            final(self).core_wf(),
            blocks_restored(*old(self), *final(self)),
            restored == restorable(*old(self)),
    {
        let mut stash: Option<ClearedBlocks> = None;
        std::mem::swap(&mut stash, &mut self.cleared_blocks);
        proof {
            reveal(stash_wf);
        }
        match stash {
            None => {
                assert(*self == *old(self));
                0
            },
            Some(blocks) => {
                let ghost models = record_models(blocks.records@);
                assert(*self == without_stash(*old(self)));
                self.restore_outputs(blocks.provenance);
                let ghost mid = *self;
                assert(outputs_restored(
                    without_stash(*old(self)),
                    output_models(old(self).cleared_blocks->0.provenance@),
                    0,
                    mid,
                ));
                self.prepend_records(blocks.records)
            },
        }
    }
}

/// Clearing when no command is complete keeps what can be undone.
pub proof fn empty_clearing_keeps_the_stash(pre: TerminalState, post: TerminalState)
    requires
        blocks_cleared(pre, post),
        complete_of(pre.log@.records).len() == 0,
    ensures
        post.cleared_blocks == pre.cleared_blocks,
        post == pre,
{
}

/// Recording outputs again leaves the log alone.
proof fn lemma_restoring_keeps_log(
    pre: TerminalState,
    outputs: Seq<OutputModel>,
    i: int,
    post: TerminalState,
)
    requires
        outputs_restored(pre, outputs, i, post),
    ensures
        post.log == pre.log,
        post.cleared_blocks == pre.cleared_blocks,
    decreases outputs.len() - i,
{
    if i < outputs.len() {
        let (output, mid) = choose|output: FinishedOutputProvenance, mid: TerminalState|
            output@ == outputs[i] && #[trigger] output_registered(pre, output, mid)
                && outputs_restored(mid, outputs, i + 1, post);
        lemma_restoring_keeps_log(mid, outputs, i + 1, post);
    }
}

/// Undoing a clearing brings back as many commands as were cleared, each in
/// its place, and the captured bytes with them; nothing is left to undo.
pub proof fn clear_undo_round_trip(pre: TerminalState, mid: TerminalState, post: TerminalState)
    requires
        pre.core_wf(),
        complete_of(pre.log@.records).len() > 0,
        blocks_cleared(pre, mid),
        blocks_restored(mid, post),
    ensures
        restorable(mid) == complete_of(pre.log@.records).len(),
        post.log@.records == pre.log@.records,
        post.log@.captured_bytes == pre.log@.captured_bytes,
        post.cleared_blocks is None,
        restorable(post) == 0,
{
    let gone = complete_of(pre.log@.records);
    let kept = open_of(pre.log@.records);
    let blocks = mid.cleared_blocks->0;
    lemma_split(pre.log@.records);
    let all = record_models(blocks.records@) + mid.log@.records;
    assert(all == gone + kept);
    let n = overfull(all.len() as int);
    assert(n == 0);
    let between = choose|between: TerminalState| #[trigger]
        outputs_restored(
            without_stash(mid),
            output_models(blocks.provenance@),
            0,
            between,
        ) && records_replaced(between, all.skip(n), all.take(n), post);
    lemma_restoring_keeps_log(without_stash(mid), output_models(blocks.provenance@), 0, between);
    assert(all.skip(0) =~= all);
    lemma_captured_total_add(gone, kept);
    lemma_newest_split(pre.log@.records);
    assert(record_models(blocks.records@).len() == blocks.records@.len());
}

/// What is kept of a list with complete commands put in front of it is as a
/// list of commands has to be, and counts the bytes that are left.
proof fn lemma_prepended(front: Seq<RecordModel>, back: Seq<RecordModel>, gone: int)
    requires
        outputs_bounded(front),
        outputs_bounded(back),
        only_newest_open(back),
        forall|i: int| 0 <= i < front.len() ==> (#[trigger] front[i]).complete,
        0 <= gone <= front.len() + back.len(),
    ensures
        outputs_bounded((front + back).take(gone)),
        outputs_bounded((front + back).skip(gone)),
        only_newest_open((front + back).skip(gone)),
        captured_total(front) + captured_total(back) == captured_total((front + back).take(gone))
            + captured_total((front + back).skip(gone)),
        captured_total(front) <= front.len() * MAX_COMPLETED_COMMAND_OUTPUT_BYTES,
        captured_total(back) <= back.len() * MAX_COMPLETED_COMMAND_OUTPUT_BYTES,
        captured_total((front + back).skip(gone)) >= 0,
{
    reveal(outputs_bounded);
    let all = front + back;
    let lost = all.take(gone);
    let kept = all.skip(gone);
    assert forall|k: int| 0 <= k < lost.len() implies captured_len(
        #[trigger] lost[k],
    ) <= MAX_COMPLETED_COMMAND_OUTPUT_BYTES by {
        if k < front.len() {
            assert(lost[k] == front[k]);
        } else {
            assert(lost[k] == back[k - front.len()]);
        }
    }
    assert forall|k: int| 0 <= k < kept.len() implies captured_len(
        #[trigger] kept[k],
    ) <= MAX_COMPLETED_COMMAND_OUTPUT_BYTES && (k < kept.len() - 1 ==> kept[k].complete) by {
        let at = k + gone;
        if at < front.len() {
            assert(kept[k] == front[at]);
        } else {
            assert(kept[k] == back[at - front.len()]);
        }
    }
    lemma_captured_total_add(front, back);
    lemma_captured_total_add(lost, kept);
    assert(lost + kept =~= all);
    lemma_captured_total_bounds(front);
    lemma_captured_total_bounds(back);
    lemma_captured_total_bounds(kept);
}

/// Where only the newest command can be open, the two parts of a list are the
/// list, and at most one command is open.
proof fn lemma_newest_split(records: Seq<RecordModel>)
    requires
        only_newest_open(records),
    ensures
        complete_of(records) + open_of(records) == records,
        open_of(records).len() <= 1,
{
    lemma_sorted_split(records);
    if records.len() > 0 {
        let head = records.drop_last();
        assert forall|i: int| 0 <= i < head.len() implies (#[trigger] head[i]).complete by {
            assert(head[i] == records[i]);
        }
        lemma_sorted_split(head);
    }
}

/// A list whose complete commands come first is its two parts in order.
proof fn lemma_sorted_split(records: Seq<RecordModel>)
    requires
        forall|i: int, j: int|
            0 <= i < j < records.len() && (#[trigger] records[j]).complete ==> (
            #[trigger] records[i]).complete,
    ensures
        complete_of(records) + open_of(records) == records,
        records.len() > 0 && records.last().complete ==> open_of(records).len() == 0,
    decreases records.len(),
{
    if records.len() > 0 {
        let head = records.drop_last();
        assert forall|i: int, j: int|
            0 <= i < j < head.len() && (#[trigger] head[j]).complete implies (
        #[trigger] head[i]).complete by {
            assert(head[j] == records[j] && head[i] == records[i]);
        }
        lemma_sorted_split(head);
        if records.last().complete && head.len() > 0 {
            assert(records[head.len() - 1].complete);
            assert(head.last().complete);
            assert(open_of(head).len() == 0);
        }
        let gone = complete_of(head);
        let kept = open_of(head);
        assert(head.push(records.last()) =~= records);
        if records.last().complete {
            assert(kept =~= Seq::<RecordModel>::empty());
            assert(gone + kept =~= gone);
            assert(gone.push(records.last()) + kept =~= head.push(records.last()));
        } else {
            assert(gone + kept.push(records.last()) =~= (gone + kept).push(records.last()));
        }
    }
}

/// What is known of the output of a command, as a value.
pub open spec fn known_output(state: TerminalState, zone: u64) -> Option<OutputModel> {
    if state.provenance.zones@.contains_key(zone) {
        Some(state.provenance.zones@[zone]@)
    } else {
        None
    }
}

/// Whether an output is in a list.
spec fn lists_output(outputs: Seq<OutputModel>, from: int, zone: u64) -> bool {
    exists|k: int| from <= k < outputs.len() && (#[trigger] outputs[k]).range.zone_id == zone
}

/// Outputs as they are known, each under its own number.
spec fn outputs_known(
    zones: Map<u64, FinishedOutputProvenance>,
    outputs: Seq<OutputModel>,
) -> bool {
    forall|k: int|
        0 <= k < outputs.len() ==> zones.contains_key((#[trigger] outputs[k]).range.zone_id)
            && outputs[k] == zones[outputs[k].range.zone_id]@
}

/// The outputs of commands are those that are known of them.
proof fn lemma_outputs_of(
    zones: Map<u64, FinishedOutputProvenance>,
    records: Seq<RecordModel>,
)
    requires
        forall|zone: u64| #[trigger]
            zones.contains_key(zone) ==> zones[zone].range.zone_id == zone,
    ensures
        outputs_known(zones, outputs_of(zones, records)),
        forall|zone: u64| #[trigger]
            lists_output(outputs_of(zones, records), 0, zone) <==> zones.contains_key(zone)
                && sequences_of(records).contains(zone),
    decreases records.len(),
{
    if records.len() > 0 {
        let head = records.drop_last();
        lemma_outputs_of(zones, head);
        let before = outputs_of(zones, head);
        let all = outputs_of(zones, records);
        let own = records.last().sequence;
        let n = head.len() as int;
        assert forall|zone: u64| sequences_of(records).contains(zone) <==> (sequences_of(
            head,
        ).contains(zone) || zone == own) by {
            if sequences_of(head).contains(zone) {
                let k = choose|k: int|
                    0 <= k < sequences_of(head).len() && sequences_of(head)[k] == zone;
                assert(sequences_of(records)[k] == zone);
            }
            if zone == own {
                assert(sequences_of(records)[n] == zone);
            }
            if sequences_of(records).contains(zone) {
                let k = choose|k: int|
                    0 <= k < sequences_of(records).len() && sequences_of(records)[k] == zone;
                if k < n {
                    assert(sequences_of(head)[k] == zone);
                }
            }
        }
        let adds = zones.contains_key(own) && !sequences_of(head).contains(own);
        assert forall|k: int| 0 <= k < all.len() implies zones.contains_key(
            (#[trigger] all[k]).range.zone_id,
        ) && all[k] == zones[all[k].range.zone_id]@ by {
            if k < before.len() {
                assert(all[k] == before[k]);
            }
        }
        assert forall|zone: u64| #[trigger] lists_output(all, 0, zone) <==> zones.contains_key(zone)
            && sequences_of(records).contains(zone) by {
            if lists_output(before, 0, zone) {
                let k = choose|k: int|
                    0 <= k < before.len() && (#[trigger] before[k]).range.zone_id == zone;
                assert(all[k].range.zone_id == zone);
            }
            if lists_output(all, 0, zone) {
                let k = choose|k: int|
                    0 <= k < all.len() && (#[trigger] all[k]).range.zone_id == zone;
                if k < before.len() {
                    assert(before[k].range.zone_id == zone);
                    assert(lists_output(before, 0, zone));
                }
            }
            if adds && zone == own {
                assert(all[before.len() as int].range.zone_id == zone);
            }
        }
    } else {
        assert forall|zone: u64| !(#[trigger] lists_output(
            outputs_of(zones, records),
            0,
            zone,
        )) by {}
    }
}

/// Recording outputs again makes them known, and leaves what is known of
/// others.
proof fn lemma_restored(
    pre: TerminalState,
    zones: Map<u64, FinishedOutputProvenance>,
    outputs: Seq<OutputModel>,
    i: int,
    post: TerminalState,
    zone: u64,
)
    requires
        0 <= i,
        outputs_known(zones, outputs),
        outputs_restored(pre, outputs, i, post),
    ensures
        known_output(post, zone) == if lists_output(outputs, i, zone) {
            Some(zones[zone]@)
        } else {
            known_output(pre, zone)
        },
        post == (TerminalState { provenance: post.provenance, caches: post.caches, ..pre }),
    decreases outputs.len() - i,
{
    if i < outputs.len() {
        let (output, mid) = choose|output: FinishedOutputProvenance, mid: TerminalState|
            output@ == outputs[i] && #[trigger] output_registered(pre, output, mid)
                && outputs_restored(mid, outputs, i + 1, post);
        lemma_restored(mid, zones, outputs, i + 1, post, zone);
        assert(outputs[i].range == output.range);
        if lists_output(outputs, i + 1, zone) {
            let k = choose|k: int|
                i + 1 <= k < outputs.len() && (#[trigger] outputs[k]).range.zone_id == zone;
            assert(outputs[k].range.zone_id == zone);
        }
        if lists_output(outputs, i, zone) && !lists_output(outputs, i + 1, zone) {
            let k = choose|k: int|
                i <= k < outputs.len() && (#[trigger] outputs[k]).range.zone_id == zone;
            assert(k == i);
        }
    }
}

/// Complete commands stay complete when they are listed first.
proof fn lemma_has_complete(records: Seq<RecordModel>, zone: u64)
    ensures
        has_complete(complete_of(records) + open_of(records), zone) == has_complete(records, zone),
        has_complete(complete_of(records), zone) == has_complete(records, zone),
        !has_complete(open_of(records), zone),
    decreases records.len(),
{
    let gone = complete_of(records);
    let kept = open_of(records);
    if records.len() > 0 {
        let head = records.drop_last();
        let last = records.last();
        lemma_has_complete(head, zone);
        let n = head.len() as int;
        if has_complete(head, zone) {
            let k = choose|k: int|
                0 <= k < head.len() && (#[trigger] head[k]).sequence == zone && head[k].complete;
            assert(records[k].sequence == zone && records[k].complete);
        }
        if has_complete(records, zone) && !(last.sequence == zone && last.complete) {
            let k = choose|k: int|
                0 <= k < records.len() && (#[trigger] records[k]).sequence == zone
                    && records[k].complete;
            assert(head[k].sequence == zone && head[k].complete);
        }
        assert(records[n] == last);
        if last.complete {
            let before = complete_of(head);
            assert(gone == before.push(last));
            assert(gone[before.len() as int] == last);
            if has_complete(before, zone) {
                let k = choose|k: int|
                    0 <= k < before.len() && (#[trigger] before[k]).sequence == zone
                        && before[k].complete;
                assert(gone[k].sequence == zone && gone[k].complete);
            }
            if has_complete(gone, zone) && !(last.sequence == zone) {
                let k = choose|k: int|
                    0 <= k < gone.len() && (#[trigger] gone[k]).sequence == zone
                        && gone[k].complete;
                assert(before[k].sequence == zone && before[k].complete);
            }
        } else {
            let before = open_of(head);
            assert(kept == before.push(last));
            if has_complete(kept, zone) {
                let k = choose|k: int|
                    0 <= k < kept.len() && (#[trigger] kept[k]).sequence == zone
                        && kept[k].complete;
                assert(before[k].sequence == zone && before[k].complete);
            }
        }
    }
    let all = gone + kept;
    if has_complete(gone, zone) {
        let k = choose|k: int|
            0 <= k < gone.len() && (#[trigger] gone[k]).sequence == zone && gone[k].complete;
        assert(all[k].sequence == zone && all[k].complete);
    }
    if has_complete(all, zone) {
        let k = choose|k: int|
            0 <= k < all.len() && (#[trigger] all[k]).sequence == zone && all[k].complete;
        if k < gone.len() {
            assert(gone[k].sequence == zone && gone[k].complete);
        } else {
            assert(kept[k - gone.len()].sequence == zone && kept[k - gone.len()].complete);
        }
    }
}

/// What is known of an output stays unless it is dropped.
proof fn lemma_dropped(pre: TerminalState, gone: Set<u64>, post: TerminalState, zone: u64)
    requires
        outputs_dropped(pre.provenance, gone, post.provenance),
    ensures
        known_output(post, zone) == if gone.contains(zone) {
            None
        } else {
            known_output(pre, zone)
        },
{
    reveal(outputs_dropped);
    let zones = pre.provenance.zones@;
    let left = zones.remove_keys(gone);
    assert(left.dom().contains(zone) <==> zones.dom().contains(zone) && !gone.contains(zone));
    if left.dom().contains(zone) {
        assert(left[zone] == zones[zone]);
    }
}

/// Undoing a clearing brings back every command in its place and where every
/// output is, and undoing it once more brings back none and changes nothing.
pub proof fn undoing_restores_outputs(
    pre: TerminalState,
    mid: TerminalState,
    post: TerminalState,
    again: TerminalState,
    zone: u64,
)
    requires
        pre.core_wf(),
        complete_of(pre.log@.records).len() > 0,
        blocks_cleared(pre, mid),
        blocks_restored(mid, post),
        blocks_restored(post, again),
    ensures
        restorable(mid) == complete_of(pre.log@.records).len(),
        post.log@.records == pre.log@.records,
        finished_range(post, zone) == finished_range(pre, zone),
        restorable(post) == 0,
        again == post,
{
    clear_undo_round_trip(pre, mid, post);
    let records = pre.log@.records;
    let gone = complete_of(records);
    let zones = pre.provenance.zones@;
    let blocks = mid.cleared_blocks->0;
    let outputs = output_models(blocks.provenance@);
    let all = record_models(blocks.records@) + mid.log@.records;
    lemma_split(records);
    let n = overfull(all.len() as int);
    assert(n == 0);
    let between = choose|between: TerminalState| #[trigger]
        outputs_restored(without_stash(mid), outputs, 0, between) && records_replaced(
            between,
            all.skip(n),
            all.take(n),
            post,
        );
    assert(forall|zone: u64| #[trigger]
        zones.contains_key(zone) ==> zones[zone].range.zone_id == zone) by {
        reveal(index_consistent);
    }
    lemma_outputs_of(zones, gone);
    lemma_restored(without_stash(mid), zones, outputs, 0, between, zone);
    assert(all.take(0) =~= Seq::<RecordModel>::empty());
    let none = sequences_of(all.take(n)).to_set();
    assert(none =~= Set::<u64>::empty());
    lemma_dropped(between, none, post, zone);
    lemma_dropped(pre, sequences_of(gone).to_set(), without_stash(mid), zone);
    assert(known_output(post, zone) == known_output(pre, zone));
    lemma_has_complete(records, zone);
    assert(post.document() == pre.document());
    assert(finished_range(post, zone) == finished_range(pre, zone)) by {
        if zones.contains_key(zone) {
            let a = zones[zone];
            let b = post.provenance.zones@[zone];
            assert(a@ == b@);
            assert(a.rows@ == b.rows@ && a.range == b.range && a.start_line_id == b.start_line_id);
            let expected = BufferAnchor { line_id: a.start_line_id, column: a.range.start.col };
            assert(post.row_of_id(a.range.start.row, Some(expected)) == pre.row_of_id(
                a.range.start.row,
                Some(expected),
            ));
        }
    }
}

/// Whether commands have numbers below `next`.
pub open spec fn numbered_below(records: Seq<RecordModel>, next: u64) -> bool {
    forall|i: int| 0 <= i < records.len() ==> (#[trigger] records[i]).sequence < next
}

/// Whether the next number of a command is above those of all the others, the
/// cleared ones included. Once numbers are used up there is no next one.
pub open spec fn numbers_ascend(state: TerminalState) -> bool {
    let next = state.log@.next_sequence;
    next == 0 || (numbered_below(state.log@.records, next) && match state.cleared_blocks {
        Some(blocks) => numbered_below(record_models(blocks.records@), next),
        None => true,
    })
}

/// A command gets a number that no other has, not even a cleared one, so a
/// number never comes to mean a later command.
pub proof fn numbers_are_not_reused(
    pre: TerminalState,
    packet: PacketModel,
    start_mark_seen: bool,
    post: TerminalState,
)
    requires
        numbers_ascend(pre),
        record_pushed(pre, packet, start_mark_seen, post),
    ensures
        numbers_ascend(post),
        pre.log@.next_sequence != 0 ==> {
            &&& post.log@.records.len() > 0
            &&& post.log@.records.last().sequence == pre.log@.next_sequence
            &&& forall|i: int|
                0 <= i < post.log@.records.len() - 1 ==> (
                #[trigger] post.log@.records[i]).sequence < pre.log@.next_sequence
        },
{
    if pre.log@.next_sequence != 0 {
        let log = log_with_opened(pre, packet, start_mark_seen);
        if pre.log@.is_full() {
            let mid = choose|mid: TerminalState|
                {
                    &&& #[trigger] zone_lost(pre, pre.log@.records[0].sequence, mid)
                    &&& only_log_changed(mid, log, post)
                };
            assert(zone_lost(pre, pre.log@.records[0].sequence, mid));
        }
        let room = if pre.log@.is_full() {
            pre.log@.oldest_evicted()
        } else {
            pre.log@
        };
        let n = room.records.len() as int;
        assert(log.records.len() == n + 1);
        assert forall|i: int| 0 <= i < n implies #[trigger] log.records[i] == room.records[i] by {}
        assert forall|i: int| 0 <= i < n implies (#[trigger] log.records[i]).sequence
            < pre.log@.next_sequence by {
            let at = if pre.log@.is_full() {
                i + 1
            } else {
                i
            };
            assert(room.records[i] == pre.log@.records[at]);
        }
    }
}

/// Complete and open commands are commands of the list.
proof fn lemma_split_numbers(records: Seq<RecordModel>, next: u64)
    requires
        numbered_below(records, next),
    ensures
        numbered_below(complete_of(records), next),
        numbered_below(open_of(records), next),
    decreases records.len(),
{
    if records.len() > 0 {
        let head = records.drop_last();
        assert forall|i: int| 0 <= i < head.len() implies (#[trigger] head[i]).sequence < next by {
            assert(head[i] == records[i]);
        }
        lemma_split_numbers(head, next);
    }
}

/// Clearing commands and undoing it use up no numbers.
pub proof fn clearing_uses_no_numbers(pre: TerminalState, post: TerminalState)
    requires
        numbers_ascend(pre),
        blocks_cleared(pre, post) || blocks_restored(pre, post),
    ensures
        numbers_ascend(post),
        post.log@.next_sequence == pre.log@.next_sequence,
{
    let next = pre.log@.next_sequence;
    if blocks_cleared(pre, post) {
        if next != 0 {
            lemma_split_numbers(pre.log@.records, next);
        }
    } else {
        match pre.cleared_blocks {
            None => {},
            Some(blocks) => {
                let all = record_models(blocks.records@) + pre.log@.records;
                let n = overfull(all.len() as int);
                let between = choose|between: TerminalState| #[trigger]
                    outputs_restored(
                        without_stash(pre),
                        output_models(blocks.provenance@),
                        0,
                        between,
                    ) && records_replaced(between, all.skip(n), all.take(n), post);
                lemma_restoring_keeps_log(
                    without_stash(pre),
                    output_models(blocks.provenance@),
                    0,
                    between,
                );
                if next != 0 {
                    let rest = all.skip(n);
                    assert forall|i: int| 0 <= i < rest.len() implies (
                    #[trigger] rest[i]).sequence < next by {
                        let first = record_models(blocks.records@);
                        if n + i < first.len() {
                            assert(rest[i] == first[n + i]);
                        } else {
                            assert(rest[i] == pre.log@.records[n + i - first.len()]);
                        }
                    }
                }
            },
        }
    }
}

} // verus!
