//! The four marks of a command: prompt, input, output and end.

use vstd::prelude::*;

use crate::commands::active_index;
use crate::commands::copy_text;
use crate::commands::index_of_id;
use crate::commands::lemma_newest_active;
use crate::commands::lemma_output_kept;
use crate::commands::local_command_id;
use crate::commands::local_id;
use crate::commands::same_index;
use crate::commands::CommandMark;
use crate::commands::CommandRecord;
use crate::commands::CommandState;
use crate::commands::CompletionProvenance;
use crate::commands::LogModel;
use crate::commands::PromptInput;
use crate::commands::RecordModel;
use crate::fields::equals;
use crate::fields::part;
use crate::lifecycle::extracted;
use crate::lifecycle::only_log_changed;
use crate::lifecycle::record_ensured;
use crate::lifecycle::record_finished;
use crate::lifecycle::record_pushed_and_marked;
use crate::lifecycle::ClockReading;
use crate::lifecycle::PacketMetadata;
use crate::lifecycle::PacketModel;
use crate::osc133::decode_osc_133_cwd;
use crate::osc133::parse_osc_133;
use crate::osc133::text_of;
use crate::osc133::valid_cwd;
use crate::osc133::valid_id;
use crate::osc133::valid_osc_133_id;
use crate::osc133::Osc133Packet;
use crate::osc133::Osc133StartIdentity;
use crate::osc133::MAX_OSC_133_COMMAND_BYTES;
use crate::output::only_active_changed;
use crate::provenance::ActiveOutputProvenance;
use crate::provenance::BufferAnchor;
use crate::state::TerminalState;
use crate::text::chars_of;
use crate::text::string_of;

verus! {

/// The log with the metadata of a packet applied to the command at `index`.
pub open spec fn log_with_packet(log: LogModel, index: int, packet: PacketModel) -> LogModel {
    log.metadata_applied(index, packet.id, packet.command, packet.cwd, packet.truncated)
}

/// Whether a prompt mark at the cursor repeats the previous one.
pub open spec fn repeats_prompt(state: TerminalState) -> bool {
    let records = state.log@.records;
    &&& records.len() > 0
    &&& !records.last().complete
    &&& records.last().state == CommandState::Prompt
    &&& records.last().prompt_start == state.cursor_anchor()
}

/// `post` is `pre` after a command that the shell never ended was closed at
/// the next prompt.
pub open spec fn left_open_closed(
    pre: TerminalState,
    now: ClockReading,
    post: TerminalState,
) -> bool {
    match active_index(pre.log@.records) {
        Some(i) => record_finished(
            pre,
            i,
            None,
            None,
            CompletionProvenance::BoundaryInferred,
            now,
            post,
        ),
        None => post == pre,
    }
}

/// `post` is `pre` after a new prompt: what was left open is closed, and a
/// command is opened.
pub open spec fn prompt_opened(
    pre: TerminalState,
    packet: PacketModel,
    now: ClockReading,
    post: TerminalState,
) -> bool {
    exists|mid: TerminalState|
        {
            &&& #[trigger] left_open_closed(pre, now, mid)
            &&& record_pushed_and_marked(mid, packet, post)
        }
}

/// `post` is `pre` after a prompt mark. The alternate screen has no prompts. A
/// prompt ends an approval that never reached its command.
pub open spec fn prompt_started(
    pre: TerminalState,
    packet: PacketModel,
    now: ClockReading,
    post: TerminalState,
) -> bool {
    let fresh = (LogModel { prompt_input: PromptInput::Clean, ..pre.log@ }).approval_abandoned(
        true,
    );
    if pre.use_alt_buffer {
        post == pre
    } else {
        exists|mid: TerminalState|
            {
                &&& #[trigger] only_log_changed(pre, fresh, mid)
                &&& if repeats_prompt(mid) {
                    only_log_changed(
                        mid,
                        log_with_packet(mid.log@, mid.log@.records.len() - 1, packet),
                        post,
                    )
                } else {
                    prompt_opened(mid, packet, now, post)
                }
            }
    }
}

/// Place of the active command in `mid`, which is `pre` after making sure that
/// there is one.
pub open spec fn ensured_index(pre: TerminalState, mid: TerminalState) -> int {
    match active_index(pre.log@.records) {
        Some(i) => i,
        None => mid.log@.records.len() - 1,
    }
}

/// Whether a command is or can be made active.
pub open spec fn can_be_active(pre: TerminalState) -> bool {
    active_index(pre.log@.records) is Some || pre.log@.next_sequence != 0
}

/// A command after its input mark.
pub open spec fn editing(record: RecordModel, anchor: BufferAnchor) -> RecordModel {
    if record.state == CommandState::Prompt || record.state == CommandState::Editing {
        RecordModel {
            command_start: match record.command_start {
                Some(start) => Some(start),
                None => Some(anchor),
            },
            state: CommandState::Editing,
            ..record
        }
    } else {
        record
    }
}

/// The log after an input mark for the command at `index`.
pub open spec fn log_with_input(
    log: LogModel,
    index: int,
    packet: PacketModel,
    anchor: BufferAnchor,
) -> LogModel {
    let noted = log_with_packet(log, index, packet);
    LogModel { records: noted.records.update(index, editing(noted.records[index], anchor)), ..noted }
}

/// `post` is `pre` after an input mark.
pub open spec fn input_started(
    pre: TerminalState,
    packet: PacketModel,
    post: TerminalState,
) -> bool {
    if pre.use_alt_buffer || !can_be_active(pre) {
        post == pre
    } else {
        exists|mid: TerminalState|
            {
                &&& #[trigger] record_ensured(pre, mid)
                &&& only_log_changed(
                    mid,
                    log_with_input(
                        mid.log@,
                        ensured_index(pre, mid),
                        packet,
                        mid.cursor_anchor(),
                    ),
                    post,
                )
            }
    }
}

/// `text` without the line breaks at its end.
pub open spec fn without_line_end(text: Seq<char>) -> Seq<char>
    decreases text.len(),
{
    if text.len() > 0 && (text.last() == '\r' || text.last() == '\n') {
        without_line_end(text.drop_last())
    } else {
        text
    }
}

/// The command text as it stands on the screen, for a shell that does not
/// report it.
pub open spec fn command_on_screen(
    state: TerminalState,
    record: RecordModel,
    packet: PacketModel,
) -> Option<Seq<char>> {
    if record.command is Some || packet.command is Some || packet.truncated {
        None
    } else {
        match record.command_start {
            None => None,
            Some(start) => match extracted(
                state,
                start,
                state.cursor_anchor(),
                MAX_OSC_133_COMMAND_BYTES as int,
            ) {
                None => None,
                Some(text) => if without_line_end(text.text).len() == 0 {
                    None
                } else {
                    Some(without_line_end(text.text))
                },
            },
        }
    }
}

/// The identity of a start mark as a value.
pub struct StartModel {
    pub session_id: Option<Seq<char>>,
    pub seq: Option<u64>,
    pub started_at_ms: Option<u64>,
}

/// The identity of a start mark as a value.
pub open spec fn start_model(identity: Osc133StartIdentity) -> StartModel {
    StartModel {
        session_id: text_of(identity.session_id),
        seq: identity.seq,
        started_at_ms: identity.started_at_ms,
    }
}

/// A command after its output mark. Only the first mark sets where the output
/// starts, the start identity and the start time.
pub open spec fn running(
    record: RecordModel,
    on_screen: Option<Seq<char>>,
    anchor: BufferAnchor,
    identity: StartModel,
    now: ClockReading,
) -> RecordModel {
    let first = !record.start_mark_seen;
    RecordModel {
        command: if record.command is None && !record.command_truncated {
            on_screen
        } else {
            record.command
        },
        output_start: match record.output_start {
            Some(start) => Some(start),
            None => Some(anchor),
        },
        state: CommandState::Running,
        session_id: if first {
            identity.session_id
        } else {
            record.session_id
        },
        seq: if first {
            identity.seq
        } else {
            record.seq
        },
        started_at_ms: if first {
            identity.started_at_ms
        } else {
            record.started_at_ms
        },
        start_mark_seen: true,
        started_at: match record.started_at {
            Some(at) => Some(at),
            None => Some(now.wall),
        },
        started_ns: match record.started_ns {
            Some(ns) => Some(ns),
            None => Some(now.monotonic_ns),
        },
        ..record
    }
}

/// The tracking of an output that starts at the cursor, where the cursor row
/// can be owned.
pub open spec fn output_tracked(state: TerminalState, zone: u64) -> Option<ActiveOutputProvenance> {
    let anchor = state.cursor_anchor();
    match state.absolute_of_line(anchor.line_id) {
        None => None,
        Some(row) => if state.document()[row].id.spec_is_tracked() {
            Some(
                ActiveOutputProvenance {
                    zone_id: zone,
                    start: anchor,
                    start_row_id: state.document()[row].id,
                    extent: None,
                    extent_row_id: None,
                    last_write_end: None,
                    semantic_end: None,
                    cursor_moved_since_output: false,
                    invalid: false,
                },
            )
        } else {
            None
        },
    }
}

/// The approval that the command at `index` is covered by: it must be the
/// approved command, at a prompt that the user did not touch.
pub open spec fn approval_for(log: LogModel, index: int) -> Option<u64> {
    match log.armed {
        Some(armed) => if log.prompt_input == PromptInput::Clean
            && log.records[index].sequence == armed.command_sequence
            && log.records[index].command == Some(armed.command) {
            Some(armed.generation)
        } else {
            None
        },
        None => None,
    }
}

/// The log after the command at `index` was matched against the approval,
/// which is used up either way.
pub open spec fn log_with_approval(log: LogModel, index: int) -> LogModel {
    let approval = approval_for(log, index);
    let bound = LogModel {
        records: log.records.update(
            index,
            RecordModel { agent_generation: approval, ..log.records[index] },
        ),
        ..log
    };
    if approval is Some {
        LogModel { armed: None, ..bound }
    } else {
        bound.approval_abandoned(false)
    }
}

/// The log after an output mark for the command at `index`, before approvals
/// are matched.
pub open spec fn log_with_running(
    state: TerminalState,
    index: int,
    packet: PacketModel,
    identity: StartModel,
    now: ClockReading,
) -> LogModel {
    let on_screen = command_on_screen(state, state.log@.records[index], packet);
    let noted = log_with_packet(state.log@, index, packet);
    LogModel {
        records: noted.records.update(
            index,
            running(noted.records[index], on_screen, state.cursor_anchor(), identity, now),
        ),
        ..noted
    }
}

/// `post` is `pre` after an output mark for the command at `index`.
pub open spec fn output_marked(
    pre: TerminalState,
    index: int,
    packet: PacketModel,
    identity: StartModel,
    now: ClockReading,
    post: TerminalState,
) -> bool {
    let first = pre.log@.records[index].output_start is None;
    let zone = pre.log@.records[index].sequence;
    let log = log_with_approval(log_with_running(pre, index, packet, identity, now), index);
    exists|mid: TerminalState|
        {
            &&& #[trigger] only_log_changed(pre, log, mid)
            &&& only_active_changed(
                mid,
                if first {
                    output_tracked(pre, zone)
                } else {
                    pre.provenance.active
                },
                post,
            )
        }
}

/// `post` is `pre` after an output mark.
pub open spec fn output_started(
    pre: TerminalState,
    packet: PacketModel,
    identity: StartModel,
    now: ClockReading,
    post: TerminalState,
) -> bool {
    if pre.use_alt_buffer || !can_be_active(pre) {
        post == pre
    } else {
        exists|mid: TerminalState|
            {
                &&& #[trigger] record_ensured(pre, mid)
                &&& output_marked(mid, ensured_index(pre, mid), packet, identity, now, post)
            }
    }
}

/// The command that an end mark closes. A named one must be known and open, or
/// else an open command that the shell has not named; an unusable or used-up
/// name closes nothing.
pub open spec fn ended_index(log: LogModel, id: Option<Seq<char>>) -> Option<int> {
    match id {
        None => active_index(log.records),
        Some(value) => match valid_id(value) {
            None => None,
            Some(id) => if log.consumed_ids.contains(id) {
                None
            } else {
                match index_of_id(log.records, id) {
                    Some(i) => if log.records[i].complete {
                        None
                    } else {
                        Some(i)
                    },
                    None => match active_index(log.records) {
                        Some(i) => if log.records[i].id == local_id(log.records[i].sequence) {
                            Some(i)
                        } else {
                            None
                        },
                        None => None,
                    },
                }
            },
        },
    }
}

/// `post` is `pre` after the directory that an end mark reports was taken
/// over for the command at `index` and for the terminal.
pub open spec fn directory_after(
    pre: TerminalState,
    index: int,
    cwd: Option<Seq<char>>,
    post: TerminalState,
) -> bool {
    let path = match cwd {
        Some(value) => valid_cwd(value),
        None => None,
    };
    match path {
        None => post == pre,
        Some(path) => {
            &&& text_of(post.current_working_dir) == Some(path)
            &&& post.log@ == LogModel {
                records: pre.log@.records.update(
                    index,
                    RecordModel { cwd_after: Some(path), ..pre.log@.records[index] },
                ),
                ..pre.log@
            }
            &&& post == TerminalState {
                log: post.log,
                current_working_dir: post.current_working_dir,
                ..pre
            }
        },
    }
}

/// The prompt marks with an outcome on the newest.
pub open spec fn outcome_marked(marks: Seq<CommandMark>, exit_code: Option<i32>) -> Seq<
    CommandMark,
> {
    if marks.len() == 0 {
        marks
    } else {
        marks.update(marks.len() - 1, CommandMark { exit_code, ..marks.last() })
    }
}

/// `post` is `pre` after the newest prompt mark got an outcome.
pub open spec fn newest_mark_closed(
    pre: TerminalState,
    exit_code: Option<i32>,
    post: TerminalState,
) -> bool {
    &&& post.command_marks@ == outcome_marked(pre.command_marks@, exit_code)
    &&& post == TerminalState { command_marks: post.command_marks, ..pre }
}

/// `post` is `pre` after the command at `index` was ended by its mark.
pub open spec fn command_ended_at(
    pre: TerminalState,
    index: int,
    packet: PacketModel,
    exit_code: Option<i32>,
    duration_ms: Option<u64>,
    now: ClockReading,
    post: TerminalState,
) -> bool {
    let noted = log_with_packet(pre.log@, index, PacketModel { cwd: None, ..packet });
    exists|s1: TerminalState, s2: TerminalState, s3: TerminalState|
        {
            &&& #[trigger] only_log_changed(pre, noted, s1)
            &&& #[trigger] directory_after(s1, index, packet.cwd, s2)
            &&& #[trigger] record_finished(
                s2,
                index,
                exit_code,
                duration_ms,
                CompletionProvenance::ShellReported,
                now,
                s3,
            )
            &&& newest_mark_closed(s3, exit_code, post)
        }
}

/// `post` is `pre` after an end mark.
pub open spec fn command_ended(
    pre: TerminalState,
    packet: PacketModel,
    exit_code: Option<i32>,
    duration_ms: Option<u64>,
    now: ClockReading,
    post: TerminalState,
) -> bool {
    if pre.use_alt_buffer {
        post == pre
    } else {
        match ended_index(pre.log@, packet.id) {
            None => post == pre,
            Some(i) => command_ended_at(pre, i, packet, exit_code, duration_ms, now, post),
        }
    }
}

/// `post` is `pre` after a packet was handled.
pub open spec fn packet_handled(
    pre: TerminalState,
    packet: Osc133Packet,
    now: ClockReading,
    post: TerminalState,
) -> bool {
    let metadata = PacketModel {
        id: text_of(packet.id),
        command: text_of(packet.command),
        cwd: text_of(packet.cwd),
        truncated: packet.command_truncated,
    };
    if packet.kind@ == "A"@ {
        prompt_started(pre, metadata, now, post)
    } else if packet.kind@ == "B"@ {
        input_started(pre, metadata, post)
    } else if packet.kind@ == "C"@ {
        output_started(pre, metadata, start_model(packet.start_identity), now, post)
    } else if packet.kind@ == "D"@ {
        command_ended(pre, metadata, packet.exit_code, packet.duration_ms, now, post)
    } else {
        post == pre
    }
}

/// `post` is `pre` after the payload of a packet was handled.
pub open spec fn osc_133_handled(
    pre: TerminalState,
    payload: Seq<char>,
    now: ClockReading,
    post: TerminalState,
) -> bool {
    exists|packet: Osc133Packet|
        #[trigger] packet.reads(payload) && packet_handled(pre, packet, now, post)
}

/// Removes the line breaks at the end of a text.
fn trim_line_end(text: &String) -> (out: String)
    ensures
        out@ == without_line_end(text@),
{
    let chars = chars_of(text.as_str());
    let mut end: usize = chars.len();
    assert(chars@.take(end as int) =~= chars@);
    while end > 0 && (chars[end - 1] == '\r' || chars[end - 1] == '\n')
        invariant
            end <= chars@.len(),
            without_line_end(chars@.take(end as int)) == without_line_end(chars@),
        decreases end,
    {
        assert(chars@.take(end as int).drop_last() =~= chars@.take(end - 1));
        end = end - 1;
    }
    let kept = part(&chars, 0, end);
    assert(kept@ =~= chars@.take(end as int));
    string_of(&kept)
}

impl CommandRecord {
    /// Moves a command on to its input.
    fn edit(self, anchor: BufferAnchor) -> (record: CommandRecord)
        ensures
            record@ == editing(self@, anchor),
    {
        if self.state == CommandState::Prompt || self.state == CommandState::Editing {
            let command_start = match self.command_start {
                Some(start) => Some(start),
                None => Some(anchor),
            };
            CommandRecord { command_start, state: CommandState::Editing, ..self }
        } else {
            self
        }
    }

    /// Fills in the command text from the screen, where the shell gave none.
    fn with_screen_command(self, on_screen: Option<String>) -> (record: CommandRecord)
        ensures
            record@ == (RecordModel {
                command: if self@.command is None && !self@.command_truncated {
                    text_of(on_screen)
                } else {
                    self@.command
                },
                ..self@
            }),
    {
        if self.command.is_none() && !self.command_truncated {
            CommandRecord { command: on_screen, ..self }
        } else {
            self
        }
    }

    /// Takes over the identity of the first start mark.
    fn with_start_identity(self, identity: Osc133StartIdentity) -> (record: CommandRecord)
        ensures
            record@ == (RecordModel {
                session_id: if self@.start_mark_seen {
                    self@.session_id
                } else {
                    text_of(identity.session_id)
                },
                seq: if self@.start_mark_seen {
                    self@.seq
                } else {
                    identity.seq
                },
                started_at_ms: if self@.start_mark_seen {
                    self@.started_at_ms
                } else {
                    identity.started_at_ms
                },
                start_mark_seen: true,
                ..self@
            }),
    {
        if self.start_mark_seen {
            self
        } else {
            CommandRecord {
                session_id: identity.session_id,
                seq: identity.seq,
                started_at_ms: identity.started_at_ms,
                start_mark_seen: true,
                ..self
            }
        }
    }

    /// Moves a command on to its output.
    fn run(
        self,
        on_screen: Option<String>,
        anchor: BufferAnchor,
        identity: Osc133StartIdentity,
        now: &ClockReading,
    ) -> (record: CommandRecord)
        ensures
            record@ == running(self@, text_of(on_screen), anchor, start_model(identity), *now),
    {
        let output_start = match self.output_start {
            Some(start) => Some(start),
            None => Some(anchor),
        };
        let started_at = match self.started_at {
            Some(at) => Some(at),
            None => Some(now.wall),
        };
        let started_ns = match self.started_ns {
            Some(ns) => Some(ns),
            None => Some(now.monotonic_ns),
        };
        let record = self.with_screen_command(on_screen).with_start_identity(identity);
        CommandRecord {
            output_start,
            started_at,
            started_ns,
            state: CommandState::Running,
            ..record
        }
    }
}

impl TerminalState {
    /// Applies the metadata of a packet to the command at `index`.
    fn note_packet(&mut self, index: usize, packet: &PacketMetadata)
        requires
            old(self).core_wf(),
            index < old(self).log@.records.len(),
        ensures
            final(self).core_wf(),
            final(self).log@.records.len() == old(self).log@.records.len(),
            only_log_changed(
                *old(self),
                log_with_packet(old(self).log@, index as int, packet@),
                *final(self),
            ),
    {
        self.log.apply_record_metadata(
            index,
            &packet.id,
            &packet.command,
            &packet.cwd,
            packet.command_truncated,
        );
    }

    /// Closes a command that the shell never ended.
    fn close_left_open(&mut self, now: &ClockReading)
        requires
            old(self).core_wf(),
        ensures
            final(self).core_wf(),
            left_open_closed(*old(self), *now, *final(self)),
            active_index(final(self).log@.records) is None,
    {
        proof {
            lemma_newest_active(self.log@.records);
        }
        if let Some(index) = self.log.active_record_index() {
            self.finish_command_record(
                index,
                None,
                None,
                CompletionProvenance::BoundaryInferred,
                now,
            );
            proof {
                lemma_newest_active(self.log@.records);
            }
        }
    }

    /// Opens a command at a new prompt.
    fn open_prompt(&mut self, packet: &PacketMetadata, now: &ClockReading)
        requires
            old(self).core_wf(),
        ensures
            final(self).core_wf(),
            prompt_opened(*old(self), packet@, *now, *final(self)),
    {
        self.close_left_open(now);
        let ghost mid = *self;
        self.open_marked_record(packet);
        assert(left_open_closed(*old(self), *now, mid));
    }

    /// Handles a prompt mark.
    pub fn record_prompt_start_with_metadata(
        &mut self,
        packet: &PacketMetadata,
        now: &ClockReading,
    )
        requires
            old(self).core_wf(),
        ensures
            final(self).core_wf(),
            prompt_started(*old(self), packet@, *now, *final(self)),
    {
        if self.use_alt_buffer {
            return;
        }
        self.log.prompt_input = PromptInput::Clean;
        self.log.record_abandoned_armed_agent_command(true);
        let ghost mid = *self;
        assert(only_log_changed(
            *old(self),
            (LogModel { prompt_input: PromptInput::Clean, ..old(self).log@ }).approval_abandoned(
                true,
            ),
            mid,
        ));
        let anchor = self.current_buffer_anchor();
        let count: usize = self.log.records.len();
        if count > 0 {
            let last: &CommandRecord = &self.log.records[count - 1];
            assert(self.log@.records.last() == last@);
            if !last.complete && last.state == CommandState::Prompt && last.prompt_start
                == anchor {
                assert(repeats_prompt(mid));
                self.note_packet(count - 1, packet);
                return;
            }
        }
        assert(!repeats_prompt(mid));
        self.open_prompt(packet, now);
    }

    /// Handles an input mark.
    pub fn record_command_start(&mut self, packet: &PacketMetadata)
        requires
            old(self).core_wf(),
        ensures
            final(self).core_wf(),
            input_started(*old(self), packet@, *final(self)),
    {
        if self.use_alt_buffer {
            return;
        }
        let index = match self.ensure_active_record() {
            Some(index) => index,
            None => {
                return;
            },
        };
        let ghost mid = *self;
        assert(record_ensured(*old(self), mid));
        assert(index == ensured_index(*old(self), mid));
        let anchor = self.current_buffer_anchor();
        self.note_packet(index, packet);
        let ghost noted = self.log@;
        self.edit_record(index, anchor);
        assert(only_log_changed(
            mid,
            log_with_input(mid.log@, index as int, packet@, mid.cursor_anchor()),
            *self,
        ));
    }

    /// Moves the command at `index` on to its input.
    fn edit_record(&mut self, index: usize, anchor: BufferAnchor)
        requires
            old(self).core_wf(),
            index < old(self).log@.records.len(),
        ensures
            final(self).core_wf(),
            only_log_changed(
                *old(self),
                LogModel {
                    records: old(self).log@.records.update(
                        index as int,
                        editing(old(self).log@.records[index as int], anchor),
                    ),
                    ..old(self).log@
                },
                *final(self),
            ),
    {
        let ghost before = self.log@.records;
        let record = self.log.records.remove(index).unwrap();
        let record = record.edit(anchor);
        let ghost after = record@;
        self.log.records.insert(index, record);
        proof {
            lemma_output_kept(before, index as int, after);
            assert(self.log@.records =~= before.update(index as int, after));
        }
    }

    /// The command text as it stands on the screen.
    fn screen_command(&self, index: usize, packet: &PacketMetadata) -> (text: Option<String>)
        requires
            self.core_wf(),
            index < self.log@.records.len(),
        ensures
            text_of(text) == command_on_screen(*self, self.log@.records[index as int], packet@),
    {
        let record = &self.log.records[index];
        assert(self.log@.records[index as int] == record@);
        if record.command.is_some() || packet.command.is_some() || packet.command_truncated {
            return None;
        }
        match record.command_start {
            None => None,
            Some(start) => {
                let anchor = self.current_buffer_anchor();
                match self.extract_text_range(start, anchor, MAX_OSC_133_COMMAND_BYTES) {
                    None => None,
                    Some(text) => {
                        let command = trim_line_end(&text.text);
                        if command.as_str().is_empty() {
                            None
                        } else {
                            Some(command)
                        }
                    },
                }
            },
        }
    }

    /// Moves the command at `index` on to its output.
    fn run_record(
        &mut self,
        index: usize,
        packet: &PacketMetadata,
        identity: Osc133StartIdentity,
        now: &ClockReading,
    )
        requires
            old(self).core_wf(),
            index < old(self).log@.records.len(),
        ensures
            final(self).core_wf(),
            only_log_changed(
                *old(self),
                log_with_running(
                    *old(self),
                    index as int,
                    packet@,
                    start_model(identity),
                    *now,
                ),
                *final(self),
            ),
            final(self).log@.records.len() == old(self).log@.records.len(),
    {
        let anchor = self.current_buffer_anchor();
        let on_screen = self.screen_command(index, packet);
        self.note_packet(index, packet);
        let ghost noted = self.log@.records;
        let record = self.log.records.remove(index).unwrap();
        assert(record@ == noted[index as int]);
        let record = record.run(on_screen, anchor, identity, now);
        let ghost after = record@;
        self.log.records.insert(index, record);
        proof {
            lemma_output_kept(noted, index as int, after);
            assert(self.log@.records =~= noted.update(index as int, after));
        }
    }

    /// Matches the command at `index` against the approval.
    #[verifier::rlimit(40)]
    fn settle_approval(&mut self, index: usize)
        requires
            old(self).core_wf(),
            index < old(self).log@.records.len(),
        ensures
            final(self).core_wf(),
            only_log_changed(
                *old(self),
                log_with_approval(old(self).log@, index as int),
                *final(self),
            ),
    {
        let ghost log = self.log@;
        let approval: Option<u64> = match &self.log.armed {
            Some(armed) => {
                let record = &self.log.records[index];
                assert(log.records[index as int] == record@);
                let approved = match &record.command {
                    Some(command) => *command == armed.command,
                    None => false,
                };
                if self.log.prompt_input == PromptInput::Clean && record.sequence
                    == armed.command_sequence && approved {
                    Some(armed.generation)
                } else {
                    None
                }
            },
            None => None,
        };
        assert(approval == approval_for(log, index as int));
        let ghost before = self.log@.records;
        let record = self.log.records.remove(index).unwrap();
        self.log.records.insert(index, CommandRecord { agent_generation: approval, ..record });
        proof {
            let after = RecordModel { agent_generation: approval, ..before[index as int] };
            lemma_output_kept(before, index as int, after);
            assert(self.log@.records =~= before.update(index as int, after));
        }
        if approval.is_some() {
            self.log.armed = None;
        } else {
            self.log.record_abandoned_armed_agent_command(false);
        }
    }

    /// The tracking of an output that starts at the cursor.
    fn track_output(&self, zone_id: u64) -> (active: Option<ActiveOutputProvenance>)
        requires
            self.core_wf(),
        ensures
            active == output_tracked(*self, zone_id),
    {
        let anchor = self.current_buffer_anchor();
        let (row, _) = match self.buffer_anchor_to_absolute(anchor) {
            Some(found) => found,
            None => {
                return None;
            },
        };
        let (start_row_id, _) = match self.retained_raw_row(row) {
            Some(found) => found,
            None => {
                return None;
            },
        };
        if start_row_id.is_tracked() {
            Some(
                ActiveOutputProvenance {
                    zone_id,
                    start: anchor,
                    start_row_id,
                    extent: None,
                    extent_row_id: None,
                    last_write_end: None,
                    semantic_end: None,
                    cursor_moved_since_output: false,
                    invalid: false,
                },
            )
        } else {
            None
        }
    }

    /// Handles an output mark for the command at `index`.
    fn mark_output(
        &mut self,
        index: usize,
        packet: &PacketMetadata,
        identity: Osc133StartIdentity,
        now: &ClockReading,
    )
        requires
            old(self).core_wf(),
            index < old(self).log@.records.len(),
        ensures
            final(self).core_wf(),
            output_marked(
                *old(self),
                index as int,
                packet@,
                start_model(identity),
                *now,
                *final(self),
            ),
    {
        assert(self.log@.records[index as int] == self.log.records@[index as int]@);
        let first = self.log.records[index].output_start.is_none();
        let zone_id: u64 = self.log.records[index].sequence;
        let begun = self.track_output(zone_id);
        let ghost log = log_with_approval(
            log_with_running(*self, index as int, packet@, start_model(identity), *now),
            index as int,
        );
        self.run_record(index, packet, identity, now);
        self.settle_approval(index);
        let ghost mid = *self;
        assert(only_log_changed(*old(self), log, mid));
        if first {
            self.provenance.active = begun;
        }
    }

    /// Handles an output mark.
    pub fn record_output_start(
        &mut self,
        packet: &PacketMetadata,
        identity: Osc133StartIdentity,
        now: &ClockReading,
    )
        requires
            old(self).core_wf(),
        ensures
            final(self).core_wf(),
            output_started(*old(self), packet@, start_model(identity), *now, *final(self)),
    {
        if self.use_alt_buffer {
            return;
        }
        let index = match self.ensure_active_record() {
            Some(index) => index,
            None => {
                return;
            },
        };
        let ghost mid = *self;
        assert(record_ensured(*old(self), mid));
        assert(index == ensured_index(*old(self), mid));
        self.mark_output(index, packet, identity, now);
    }

    /// The command that an end mark closes.
    fn find_ended(&self, id: &Option<String>) -> (index: Option<usize>)
        ensures
            same_index(index, ended_index(self.log@, text_of(*id))),
            index matches Some(i) ==> i < self.log@.records.len(),
    {
        let value = match id {
            None => {
                return self.log.active_record_index();
            },
            Some(value) => value,
        };
        let decoded = match valid_osc_133_id(value.as_str()) {
            None => {
                return None;
            },
            Some(decoded) => decoded,
        };
        if self.log.command_id_was_consumed(&decoded) {
            return None;
        }
        match self.log.record_index_for_id(&decoded) {
            Some(i) => {
                assert(self.log@.records[i as int] == self.log.records@[i as int]@);
                if self.log.records[i].complete {
                    None
                } else {
                    Some(i)
                }
            },
            None => match self.log.active_record_index() {
                Some(i) => {
                    assert(self.log@.records[i as int] == self.log.records@[i as int]@);
                    let local = local_command_id(self.log.records[i].sequence);
                    if self.log.records[i].id == local {
                        Some(i)
                    } else {
                        None
                    }
                },
                None => None,
            },
        }
    }

    /// Takes over the directory that an end mark reports.
    fn take_directory(&mut self, index: usize, cwd: &Option<String>)
        requires
            old(self).core_wf(),
            index < old(self).log@.records.len(),
        ensures
            final(self).core_wf(),
            final(self).log@.records.len() == old(self).log@.records.len(),
            directory_after(*old(self), index as int, text_of(*cwd), *final(self)),
    {
        if let Some(value) = cwd {
            if let Some(path) = decode_osc_133_cwd(value.as_str()) {
                let ghost before = self.log@.records;
                let ghost after = RecordModel { cwd_after: Some(path@), ..before[index as int] };
                let record = self.log.records.remove(index).unwrap();
                let cwd_after = Some(path.clone());
                self.log.records.insert(index, CommandRecord { cwd_after, ..record });
                proof {
                    lemma_output_kept(before, index as int, after);
                    assert(self.log@.records =~= before.update(index as int, after));
                }
                self.current_working_dir = Some(path);
            }
        }
    }

    /// Sets the outcome of the newest prompt mark.
    fn close_newest_mark(&mut self, exit_code: Option<i32>)
        requires
            old(self).core_wf(),
        ensures
            final(self).core_wf(),
            newest_mark_closed(*old(self), exit_code, *final(self)),
    {
        let ghost before = self.command_marks@;
        if let Some(mark) = self.command_marks.pop_back() {
            self.command_marks.push_back(CommandMark { exit_code, ..mark });
        }
        assert(self.command_marks@ =~= outcome_marked(before, exit_code));
    }

    /// Handles an end mark.
    pub fn record_command_exit_with_metadata(
        &mut self,
        packet: &PacketMetadata,
        exit_code: Option<i32>,
        duration_ms: Option<u64>,
        now: &ClockReading,
    )
        requires
            old(self).core_wf(),
        ensures
            final(self).core_wf(),
            command_ended(*old(self), packet@, exit_code, duration_ms, *now, *final(self)),
    {
        if self.use_alt_buffer {
            return;
        }
        let index = match self.find_ended(&packet.id) {
            Some(index) => index,
            None => {
                return;
            },
        };
        let without_cwd = PacketMetadata {
            id: copy_text(&packet.id),
            command: copy_text(&packet.command),
            cwd: None,
            command_truncated: packet.command_truncated,
        };
        assert(without_cwd@ == PacketModel { cwd: None, ..packet@ });
        self.note_packet(index, &without_cwd);
        let ghost s1 = *self;
        self.take_directory(index, &packet.cwd);
        let ghost s2 = *self;
        self.finish_command_record(
            index,
            exit_code,
            duration_ms,
            CompletionProvenance::ShellReported,
            now,
        );
        let ghost s3 = *self;
        self.close_newest_mark(exit_code);
        proof {
            assert(directory_after(s1, index as int, packet@.cwd, s2));
            assert(record_finished(
                s2,
                index as int,
                exit_code,
                duration_ms,
                CompletionProvenance::ShellReported,
                *now,
                s3,
            ));
            assert(command_ended_at(
                *old(self),
                index as int,
                packet@,
                exit_code,
                duration_ms,
                *now,
                *self,
            ));
        }
    }

    /// Handles a packet that was read.
    pub fn handle_osc_133_packet(&mut self, packet: Osc133Packet, now: &ClockReading)
        requires
            old(self).core_wf(),
        ensures
            final(self).core_wf(),
            packet_handled(*old(self), packet, *now, *final(self)),
    {
        let metadata = PacketMetadata {
            id: packet.id,
            command: packet.command,
            cwd: packet.cwd,
            command_truncated: packet.command_truncated,
        };
        if equals(&packet.kind, "A") {
            self.record_prompt_start_with_metadata(&metadata, now);
        } else if equals(&packet.kind, "B") {
            self.record_command_start(&metadata);
        } else if equals(&packet.kind, "C") {
            self.record_output_start(&metadata, packet.start_identity, now);
        } else if equals(&packet.kind, "D") {
            self.record_command_exit_with_metadata(
                &metadata,
                packet.exit_code,
                packet.duration_ms,
                now,
            );
        }
    }

    /// Handles the payload of a shell-integration packet.
    pub fn handle_osc_133(&mut self, payload: &Vec<char>, now: &ClockReading)
        requires
            old(self).core_wf(),
        ensures
            final(self).core_wf(),
            osc_133_handled(*old(self), payload@, *now, *final(self)),
    {
        let packet = parse_osc_133(payload);
        self.handle_osc_133_packet(packet, now);
    }
}

} // verus!
