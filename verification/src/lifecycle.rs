//! Command lifecycle marks (OSC 133) applied to the terminal.

use std::time::SystemTime;
use vstd::prelude::*;

use crate::bounded_text::bounded;
use crate::bounded_text::bounded_text_fits;
use crate::bounded_text::capped;
use crate::bounded_text::utf8_len;
use crate::bounded_text::ExtractedText;
use crate::commands::active_index;
use crate::commands::captured_total;
use crate::commands::copy_text;
use crate::commands::lemma_newest_active;
use crate::commands::lemma_output_kept;
use crate::commands::no_text;
use crate::commands::output_model;
use crate::commands::released;
use crate::commands::space_made;
use crate::commands::text_model;
use crate::commands::CommandLog;
use crate::commands::CommandMark;
use crate::commands::CommandRecord;
use crate::commands::CommandState;
use crate::commands::CompletedCommandEvent;
use crate::commands::CompletedCommandOutput;
use crate::commands::CompletedModel;
use crate::commands::CompletionProvenance;
use crate::commands::EventModel;
use crate::commands::LogModel;
use crate::commands::RecordModel;
use crate::commands::TextModel;
use crate::commands::MAX_CAPTURED_COMMAND_OUTPUT_BYTES;
use crate::commands::MAX_COMMAND_MARKS;
use crate::commands::MAX_COMPLETED_COMMAND_OUTPUT_BYTES;
use crate::extraction::anchored_text;
use crate::extraction::extraction;
use crate::extraction::range_retained;
use crate::osc133::text_of;
use crate::output::closed_output;
use crate::output::only_active_changed;
use crate::provenance::lemma_push_to_set;
use crate::provenance::outputs_dropped;
use crate::provenance::revision_after;
use crate::provenance::with_rows;
use crate::provenance::without_zones;
use crate::provenance::ActiveOutputProvenance;
use crate::provenance::BufferAnchor;
use crate::provenance::FinishedOutputProvenance;
use crate::scrolling::caches_without;
use crate::state::TerminalState;

verus! {

/// A reading of the clocks: nanoseconds since the terminal was created, and
/// the wall-clock time.
#[derive(Clone, Copy)]
pub struct ClockReading {
    pub monotonic_ns: u64,
    pub wall: SystemTime,
}

/// The running output after the command with zone `zone` left the log.
pub open spec fn active_without_zone(
    active: Option<ActiveOutputProvenance>,
    zone: u64,
) -> Option<ActiveOutputProvenance> {
    match active {
        Some(a) => if a.zone_id == zone {
            None
        } else {
            active
        },
        None => None,
    }
}

/// `post` is `pre` after the output of `zone` was forgotten, finished or not.
pub open spec fn zone_lost(pre: TerminalState, zone: u64, post: TerminalState) -> bool {
    &&& outputs_dropped(pre.provenance, set![zone], post.provenance)
    &&& post.provenance.active == active_without_zone(pre.provenance.active, zone)
    &&& post.caches == caches_without(pre.caches, pre.provenance, set![zone])
    &&& post == TerminalState { provenance: post.provenance, caches: post.caches, ..pre }
}

/// `post` is `pre` with another log.
pub open spec fn only_log_changed(pre: TerminalState, log: LogModel, post: TerminalState) -> bool {
    &&& post.log@ == log
    &&& post == TerminalState { log: post.log, ..pre }
}

/// The metadata of a packet.
pub struct PacketModel {
    pub id: Option<Seq<char>>,
    pub command: Option<Seq<char>>,
    pub cwd: Option<Seq<char>>,
    pub truncated: bool,
}

/// A packet without metadata.
pub open spec fn bare_packet() -> PacketModel {
    PacketModel { id: None, command: None, cwd: None, truncated: false }
}

/// The metadata of a packet as the functions here take it.
pub struct PacketMetadata {
    pub id: Option<String>,
    pub command: Option<String>,
    pub cwd: Option<String>,
    pub command_truncated: bool,
}

impl View for PacketMetadata {
    type V = PacketModel;

    open spec fn view(&self) -> PacketModel {
        PacketModel {
            id: text_of(self.id),
            command: text_of(self.command),
            cwd: text_of(self.cwd),
            truncated: self.command_truncated,
        }
    }
}

/// The log after a command was opened at the cursor of `pre`.
pub open spec fn log_with_opened(
    pre: TerminalState,
    packet: PacketModel,
    start_mark_seen: bool,
) -> LogModel {
    pre.log@.record_opened(
        pre.cursor_anchor(),
        text_of(pre.current_working_dir),
        packet.id,
        packet.command,
        packet.cwd,
        packet.truncated,
        start_mark_seen,
    )
}

/// `post` is `pre` after a command was opened at the cursor. Once sequence
/// numbers are used up no command is opened any more.
pub open spec fn record_pushed(
    pre: TerminalState,
    packet: PacketModel,
    start_mark_seen: bool,
    post: TerminalState,
) -> bool {
    if pre.log@.next_sequence == 0 {
        post == pre
    } else if pre.log@.is_full() {
        exists|mid: TerminalState|
            {
                &&& #[trigger] zone_lost(pre, pre.log@.records[0].sequence, mid)
                &&& only_log_changed(mid, log_with_opened(pre, packet, start_mark_seen), post)
            }
    } else {
        only_log_changed(pre, log_with_opened(pre, packet, start_mark_seen), post)
    }
}

/// The prompt marks with one more; the oldest ones make way.
pub open spec fn mark_appended(marks: Seq<CommandMark>, line_id: u64) -> Seq<CommandMark> {
    let mark = CommandMark { line_id, exit_code: None };
    if marks.len() >= MAX_COMMAND_MARKS {
        marks.drop_first().push(mark)
    } else {
        marks.push(mark)
    }
}

/// `post` is `pre` after a prompt mark was set at the cursor.
pub open spec fn prompt_marked(pre: TerminalState, post: TerminalState) -> bool {
    &&& post.command_marks@ == mark_appended(pre.command_marks@, pre.cursor_anchor().line_id)
    &&& post == TerminalState { command_marks: post.command_marks, ..pre }
}

/// `post` is `pre` after a command was opened and marked at the cursor.
pub open spec fn record_pushed_and_marked(
    pre: TerminalState,
    packet: PacketModel,
    post: TerminalState,
) -> bool {
    exists|mid: TerminalState|
        {
            &&& #[trigger] record_pushed(pre, packet, false, mid)
            &&& if pre.log@.next_sequence == 0 {
                post == mid
            } else {
                prompt_marked(mid, post)
            }
        }
}

/// `post` is `pre` after a command was made active where none was.
pub open spec fn record_ensured(pre: TerminalState, post: TerminalState) -> bool {
    if active_index(pre.log@.records) is Some {
        post == pre
    } else {
        record_pushed_and_marked(pre, bare_packet(), post)
    }
}

/// The text of a range within a limit, where it is retained.
pub open spec fn extracted(
    state: TerminalState,
    start: BufferAnchor,
    end: BufferAnchor,
    max_bytes: int,
) -> Option<TextModel> {
    if range_retained(state, start, end) {
        let text = anchored_text(state, start, end);
        Some(
            TextModel {
                text: bounded(text, max_bytes),
                truncated: utf8_len(text) > max_bytes,
                total_bytes: capped(utf8_len(text)),
            },
        )
    } else {
        None
    }
}

impl TerminalState {
    /// Forgets the output of a command that leaves the log.
    fn lose_zone(&mut self, zone: u64)
        requires
            old(self).core_wf(),
        ensures
            final(self).core_wf(),
            zone_lost(*old(self), zone, *final(self)),
    {
        let mut list: Vec<u64> = Vec::new();
        list.push(zone);
        proof {
            lemma_push_to_set(Seq::<u64>::empty(), zone);
            assert(list@ =~= Seq::<u64>::empty().push(zone));
            assert(Seq::<u64>::empty().to_set() =~= Set::<u64>::empty());
            assert(list@.to_set() =~= set![zone]);
        }
        if self.provenance.unregister_all(&list) {
            self.caches.drop_plans();
        }
        if let Some(active) = self.provenance.active {
            if active.zone_id == zone {
                self.provenance.active = None;
            }
        }
        proof {
            reveal(outputs_dropped);
            assert(self.provenance.owner_map() =~= without_zones(
                old(self).provenance.owner_map(),
                set![zone],
            ));
        }
    }

    /// Opens a command at the cursor. The result is its place in the log, once
    /// there are sequence numbers left.
    #[verifier::rlimit(30)]
    pub fn push_command_record(&mut self, packet: &PacketMetadata, start_mark_seen: bool) -> (index:
        Option<usize>)
        requires
            old(self).core_wf(),
            active_index(old(self).log@.records) is None,
        ensures
            final(self).core_wf(),
            record_pushed(*old(self), packet@, start_mark_seen, *final(self)),
            index is None <==> old(self).log@.next_sequence == 0,
            index matches Some(i) ==> i == final(self).log@.records.len() - 1,
    {
        if self.log.next_sequence == 0 {
            return None;
        }
        let anchor = self.current_buffer_anchor();
        if self.log.records.len() >= MAX_COMMAND_MARKS {
            let sequence: u64 = self.log.records[0].sequence;
            self.lose_zone(sequence);
            let ghost before = self.log@.records;
            let _ = self.log.evict_oldest();
            proof {
                lemma_newest_active(before);
                lemma_newest_active(self.log@.records);
            }
        }
        self.log.open_record(
            anchor,
            &self.current_working_dir,
            &packet.id,
            &packet.command,
            &packet.cwd,
            packet.command_truncated,
            start_mark_seen,
        );
        Some(self.log.records.len() - 1)
    }

    /// Sets a prompt mark at the cursor.
    fn mark_prompt(&mut self)
        requires
            old(self).core_wf(),
        ensures
            final(self).core_wf(),
            prompt_marked(*old(self), *final(self)),
    {
        let line_id: u64 = self.current_buffer_anchor().line_id;
        if self.command_marks.len() >= MAX_COMMAND_MARKS {
            let _ = self.command_marks.pop_front();
        }
        self.command_marks.push_back(CommandMark { line_id, exit_code: None });
        assert(self.command_marks@ =~= mark_appended(old(self).command_marks@, line_id));
    }

    /// Opens a command and marks its prompt. The result is its place in the
    /// log.
    pub fn open_marked_record(&mut self, packet: &PacketMetadata) -> (index: Option<usize>)
        requires
            old(self).core_wf(),
            active_index(old(self).log@.records) is None,
        ensures
            final(self).core_wf(),
            record_pushed_and_marked(*old(self), packet@, *final(self)),
            index is None <==> old(self).log@.next_sequence == 0,
            index matches Some(i) ==> i == final(self).log@.records.len() - 1,
    {
        let index = self.push_command_record(packet, false);
        if index.is_some() {
            self.mark_prompt();
        }
        index
    }

    /// Makes sure that some command is active.
    pub fn ensure_active_record(&mut self) -> (index: Option<usize>)
        requires
            old(self).core_wf(),
        ensures
            final(self).core_wf(),
            record_ensured(*old(self), *final(self)),
            match index {
                Some(i) => i < final(self).log@.records.len() && if active_index(
                    old(self).log@.records,
                ) is Some {
                    active_index(old(self).log@.records) == Some(i as int)
                } else {
                    old(self).log@.next_sequence != 0 && i == final(self).log@.records.len() - 1
                },
                None => active_index(old(self).log@.records) is None
                    && old(self).log@.next_sequence == 0,
            },
    {
        if let Some(index) = self.log.active_record_index() {
            return Some(index);
        }
        let packet = PacketMetadata { id: None, command: None, cwd: None, command_truncated: false };
        self.open_marked_record(&packet)
    }
}

/// Milliseconds between two readings of the monotonic clock.
pub open spec fn elapsed_ms(start_ns: u64, now_ns: u64) -> u64 {
    if now_ns >= start_ns {
        ((now_ns - start_ns) / 1_000_000) as u64
    } else {
        0
    }
}

/// A command after it ended. Where its output is known exactly, the record
/// says where it starts and ends; otherwise it ends at the cursor. Only an end
/// that the shell reported has a duration and a time.
pub open spec fn finished_record(
    record: RecordModel,
    output: Option<(BufferAnchor, BufferAnchor)>,
    anchor: BufferAnchor,
    exit_code: Option<i32>,
    duration_ms: Option<u64>,
    provenance: CompletionProvenance,
    now: ClockReading,
) -> RecordModel {
    let reported = provenance == CompletionProvenance::ShellReported;
    let end = match output {
        Some((_, end)) => end,
        None => anchor,
    };
    RecordModel {
        output_start: match output {
            Some((start, _)) => Some(start),
            None => record.output_start,
        },
        output_end: Some(end),
        end: Some(end),
        exit_code,
        duration_ms: if reported {
            match duration_ms {
                Some(ms) => Some(ms),
                None => match record.started_ns {
                    Some(start) => Some(elapsed_ms(start, now.monotonic_ns)),
                    None => None,
                },
            }
        } else {
            None
        },
        state: CommandState::Complete,
        complete: true,
        completion_provenance: provenance,
        finished_at: if reported {
            Some(now.wall)
        } else {
            None
        },
        started_ns: None,
        ..record
    }
}

/// The event that reports a finished command with its output.
pub open spec fn completion_event(record: RecordModel, output: Option<TextModel>) -> EventModel {
    EventModel {
        completed: CompletedModel {
            id: record.id,
            session_id: record.session_id,
            seq: record.seq,
            started_at_ms: record.started_at_ms,
            command: record.command,
            cwd: record.cwd,
            exit_code: record.exit_code,
            duration_ms: record.duration_ms,
            output: match output {
                Some(output) => output,
                None => no_text(),
            },
            output_available: output is Some,
            agent_generation: record.agent_generation,
        },
        start_mark_seen: record.start_mark_seen,
        completion_provenance: record.completion_provenance,
    }
}

/// The output of a command, as far as it is retained.
pub open spec fn record_output(state: TerminalState, record: RecordModel) -> Option<TextModel> {
    match (record.output_start, record.output_end) {
        (Some(start), Some(end)) => extracted(
            state,
            start,
            end,
            MAX_COMPLETED_COMMAND_OUTPUT_BYTES as int,
        ),
        _ => None,
    }
}

/// The log after the output of the command at `index` was captured and the
/// command was reported.
pub open spec fn log_with_report(state: TerminalState, log: LogModel, index: int) -> LogModel {
    let output = record_output(state, log.records[index]);
    let captured = match output {
        Some(text) => log.output_captured(index, text),
        None => log,
    };
    captured.event_queued(completion_event(captured.records[index], output))
}

/// The log after the command at `index` ended.
pub open spec fn log_with_finished(
    state: TerminalState,
    index: int,
    output: Option<(BufferAnchor, BufferAnchor)>,
    anchor: BufferAnchor,
    exit_code: Option<i32>,
    duration_ms: Option<u64>,
    provenance: CompletionProvenance,
    now: ClockReading,
) -> LogModel {
    let log = state.log@;
    let record = finished_record(
        log.records[index],
        output,
        anchor,
        exit_code,
        duration_ms,
        provenance,
        now,
    );
    let closed = LogModel { records: log.records.update(index, record), ..log };
    let published = if provenance == CompletionProvenance::ShellReported || record.start_mark_seen {
        log_with_report(state, closed, index)
    } else {
        closed
    };
    published.id_consumed(record.id)
}

/// `post` is `pre` after a finished output was recorded.
pub open spec fn output_registered(
    pre: TerminalState,
    provenance: FinishedOutputProvenance,
    post: TerminalState,
) -> bool {
    let zone = provenance.range.zone_id;
    &&& post.provenance.zones@ == pre.provenance.zones@.insert(zone, provenance)
    &&& post.provenance.owner_map() == with_rows(
        without_zones(pre.provenance.owner_map(), set![zone]),
        zone,
        provenance.rows@,
        provenance.rows@.len() as int,
    )
    &&& post.provenance.revision == revision_after(
        pre.provenance.revision,
        if pre.provenance.zones@.contains_key(zone) {
            2int
        } else {
            1
        },
    )
    &&& post.provenance.active == pre.provenance.active
    &&& post.caches == pre.caches.plans_dropped()
    &&& post == TerminalState { provenance: post.provenance, caches: post.caches, ..pre }
}

/// Where an exactly known output starts and ends.
pub open spec fn output_bounds(
    closed: Option<(FinishedOutputProvenance, BufferAnchor, BufferAnchor)>,
) -> Option<(BufferAnchor, BufferAnchor)> {
    match closed {
        Some((_, start, end)) => Some((start, end)),
        None => None,
    }
}

/// `post` is `pre` after the running output was closed with result `closed`
/// and, where it is known exactly, recorded.
pub open spec fn output_closed(
    pre: TerminalState,
    zone: u64,
    closed: Option<(FinishedOutputProvenance, BufferAnchor, BufferAnchor)>,
    post: TerminalState,
) -> bool {
    &&& closed_output(pre, zone, closed)
    &&& exists|mid: TerminalState|
        {
            &&& #[trigger] only_active_changed(pre, None, mid)
            &&& match closed {
                Some((provenance, _, _)) => output_registered(mid, provenance, post),
                None => post == mid,
            }
        }
}

/// `post` is `pre` after the command at `index` ended.
pub open spec fn record_finished(
    pre: TerminalState,
    index: int,
    exit_code: Option<i32>,
    duration_ms: Option<u64>,
    provenance: CompletionProvenance,
    now: ClockReading,
    post: TerminalState,
) -> bool {
    exists|
        closed: Option<(FinishedOutputProvenance, BufferAnchor, BufferAnchor)>,
        mid: TerminalState,
    |
        {
            &&& #[trigger] output_closed(pre, pre.log@.records[index].sequence, closed, mid)
            &&& only_log_changed(
                mid,
                log_with_finished(
                    mid,
                    index,
                    output_bounds(closed),
                    pre.cursor_anchor(),
                    exit_code,
                    duration_ms,
                    provenance,
                    now,
                ),
                post,
            )
        }
}

impl CommandRecord {
    /// Ends a command.
    fn finish(
        self,
        output: Option<(BufferAnchor, BufferAnchor)>,
        anchor: BufferAnchor,
        exit_code: Option<i32>,
        duration_ms: Option<u64>,
        provenance: CompletionProvenance,
        now: &ClockReading,
    ) -> (record: CommandRecord)
        ensures
            record@ == finished_record(
                self@,
                output,
                anchor,
                exit_code,
                duration_ms,
                provenance,
                *now,
            ),
    {
        let reported = provenance == CompletionProvenance::ShellReported;
        let (output_start, end) = match output {
            Some((start, end)) => (Some(start), end),
            None => (self.output_start, anchor),
        };
        let measured: Option<u64> = match self.started_ns {
            Some(start) => Some(
                if now.monotonic_ns >= start {
                    (now.monotonic_ns - start) / 1_000_000
                } else {
                    0
                },
            ),
            None => None,
        };
        let duration_ms = if reported {
            match duration_ms {
                Some(ms) => Some(ms),
                None => measured,
            }
        } else {
            None
        };
        let finished_at = if reported {
            Some(now.wall)
        } else {
            None
        };
        CommandRecord {
            output_start,
            output_end: Some(end),
            end: Some(end),
            exit_code,
            duration_ms,
            state: CommandState::Complete,
            complete: true,
            completion_provenance: provenance,
            finished_at,
            started_ns: None,
            ..self
        }
    }

    /// The event that reports a finished command with its output.
    fn report(&self, output: Option<ExtractedText>) -> (event: CompletedCommandEvent)
        ensures
            event@ == completion_event(self@, output_model(output)),
    {
        let (text, output_available, truncated, total_bytes) = match output {
            Some(output) => (output.text, true, output.truncated, output.total_bytes),
            None => (String::new(), false, false, 0),
        };
        CompletedCommandEvent {
            start_mark_seen: self.start_mark_seen,
            completion_provenance: self.completion_provenance,
            completed: CompletedCommandOutput {
                id: self.id.clone(),
                session_id: copy_text(&self.session_id),
                seq: self.seq,
                started_at_ms: self.started_at_ms,
                command: copy_text(&self.command),
                cwd: copy_text(&self.cwd),
                exit_code: self.exit_code,
                duration_ms: self.duration_ms,
                output: text,
                output_available,
                truncated,
                total_bytes,
                agent_generation: self.agent_generation,
            },
        }
    }
}

/// A copy of an extracted text.
fn copy_extracted(output: &ExtractedText) -> (copy: ExtractedText)
    ensures
        text_model(copy) == text_model(*output),
{
    ExtractedText {
        text: output.text.clone(),
        truncated: output.truncated,
        total_bytes: output.total_bytes,
    }
}

impl CommandLog {
    /// Replaces the command at `index` by its ended form.
    fn finish_record(
        &mut self,
        index: usize,
        output: Option<(BufferAnchor, BufferAnchor)>,
        anchor: BufferAnchor,
        exit_code: Option<i32>,
        duration_ms: Option<u64>,
        provenance: CompletionProvenance,
        now: &ClockReading,
    )
        requires
            old(self)@.wf(),
            index < old(self).records@.len(),
        ensures
            final(self)@.wf(),
            final(self)@ == (LogModel {
                records: old(self)@.records.update(
                    index as int,
                    finished_record(
                        old(self)@.records[index as int],
                        output,
                        anchor,
                        exit_code,
                        duration_ms,
                        provenance,
                        *now,
                    ),
                ),
                ..old(self)@
            }),
    {
        let ghost before = self@.records;
        let record = self.records.remove(index).unwrap();
        let record = record.finish(output, anchor, exit_code, duration_ms, provenance, now);
        let ghost after = record@;
        proof {
            lemma_output_kept(before, index as int, after);
        }
        self.records.insert(index, record);
        assert(self@.records =~= before.update(index as int, after));
    }
}

impl TerminalState {
    /// Captures the output of the command at `index` and reports the command.
    #[verifier::rlimit(40)]
    fn capture_and_queue_completed_command_output(&mut self, index: usize)
        requires
            old(self).core_wf(),
            index < old(self).log@.records.len(),
        ensures
            final(self).core_wf(),
            only_log_changed(
                *old(self),
                log_with_report(*old(self), old(self).log@, index as int),
                *final(self),
            ),
    {
        let output: Option<ExtractedText> = match (
            self.log.records[index].output_start,
            self.log.records[index].output_end,
        ) {
            (Some(start), Some(end)) => self.extract_text_range(
                start,
                end,
                MAX_COMPLETED_COMMAND_OUTPUT_BYTES,
            ),
            _ => None,
        };
        assert(output_model(output) == record_output(*self, self.log@.records[index as int]));
        if let Some(text) = &output {
            proof {
                let record = self.log@.records[index as int];
                bounded_text_fits(
                    anchored_text(*self, record.output_start->0, record.output_end->0),
                    MAX_COMPLETED_COMMAND_OUTPUT_BYTES as int,
                );
            }
            self.log.store_captured_command_output(index, copy_extracted(text));
        }
        let event = self.log.records[index].report(output);
        self.log.queue_event(event);
    }

    /// Records a finished output.
    pub fn register_finished_output_provenance(&mut self, provenance: FinishedOutputProvenance)
        requires
            old(self).core_wf(),
        ensures
            final(self).core_wf(),
            output_registered(*old(self), provenance, *final(self)),
    {
        self.provenance.register(provenance);
        self.caches.drop_plans();
    }

    /// Closes the running output and records it where it is known exactly. The
    /// result is where it starts and ends.
    fn close_output(&mut self, zone: u64) -> (bounds: Option<(BufferAnchor, BufferAnchor)>)
        requires
            old(self).core_wf(),
        ensures
            final(self).core_wf(),
            exists|closed: Option<(FinishedOutputProvenance, BufferAnchor, BufferAnchor)>|
                #[trigger] output_closed(*old(self), zone, closed, *final(self)) && output_bounds(
                    closed,
                ) == bounds,
            final(self).log == old(self).log,
            final(self).cursor_anchor() == old(self).cursor_anchor(),
    {
        let closed = self.finish_active_output_provenance(zone);
        let ghost result = closed;
        match closed {
            Some((provenance, start, end)) => {
                self.register_finished_output_provenance(provenance);
                assert(output_closed(*old(self), zone, result, *self));
                Some((start, end))
            },
            None => {
                assert(output_closed(*old(self), zone, result, *self));
                None
            },
        }
    }

    /// Ends the command at `index`.
    pub fn finish_command_record(
        &mut self,
        index: usize,
        exit_code: Option<i32>,
        duration_ms: Option<u64>,
        provenance: CompletionProvenance,
        now: &ClockReading,
    )
        requires
            old(self).core_wf(),
            index < old(self).log@.records.len(),
        ensures
            final(self).core_wf(),
            record_finished(
                *old(self),
                index as int,
                exit_code,
                duration_ms,
                provenance,
                *now,
                *final(self),
            ),
            final(self).log@.records.len() == old(self).log@.records.len(),
            final(self).log@.records[index as int].complete,
    {
        let anchor = self.current_buffer_anchor();
        let zone: u64 = self.log.records[index].sequence;
        let bounds = self.close_output(zone);
        let ghost mid = *self;
        self.enter_finish(index, bounds, anchor, exit_code, duration_ms, provenance, now);
        proof {
            let closed = choose|closed: Option<
                (FinishedOutputProvenance, BufferAnchor, BufferAnchor),
            >| #[trigger]
                output_closed(*old(self), zone, closed, mid) && output_bounds(closed) == bounds;
            assert(output_closed(*old(self), zone, closed, mid));
        }
    }

    /// Enters the end of the command at `index` into the log.
    fn enter_finish(
        &mut self,
        index: usize,
        bounds: Option<(BufferAnchor, BufferAnchor)>,
        anchor: BufferAnchor,
        exit_code: Option<i32>,
        duration_ms: Option<u64>,
        provenance: CompletionProvenance,
        now: &ClockReading,
    )
        requires
            old(self).core_wf(),
            index < old(self).log@.records.len(),
        ensures
            final(self).core_wf(),
            only_log_changed(
                *old(self),
                log_with_finished(
                    *old(self),
                    index as int,
                    bounds,
                    anchor,
                    exit_code,
                    duration_ms,
                    provenance,
                    *now,
                ),
                *final(self),
            ),
            final(self).log@.records.len() == old(self).log@.records.len(),
            final(self).log@.records[index as int].complete,
    {
        let ghost mid = *self;
        self.log.finish_record(index, bounds, anchor, exit_code, duration_ms, provenance, now);
        let ghost closed_log = self.log@;
        let publish = provenance == CompletionProvenance::ShellReported
            || self.log.records[index].start_mark_seen;
        proof {
            lemma_report_ignores_log(mid, *self, closed_log, index as int);
            lemma_capture_keeps_id(mid, closed_log, index as int);
        }
        self.publish_completion(index, publish);
        let id = self.log.records[index].id.clone();
        self.log.remember_consumed_command_id(&id);
    }

    /// Reports the command at `index` where it is to be published.
    fn publish_completion(&mut self, index: usize, publish: bool)
        requires
            old(self).core_wf(),
            index < old(self).log@.records.len(),
        ensures
            final(self).core_wf(),
            only_log_changed(
                *old(self),
                if publish {
                    log_with_report(*old(self), old(self).log@, index as int)
                } else {
                    old(self).log@
                },
                *final(self),
            ),
    {
        if publish {
            self.capture_and_queue_completed_command_output(index);
        }
    }
}

/// What a command reports does not depend on the log beside it.
proof fn lemma_report_ignores_log(
    mid: TerminalState,
    state: TerminalState,
    log: LogModel,
    index: int,
)
    requires
        state == (TerminalState { log: state.log, ..mid }),
    ensures
        log_with_report(mid, log, index) == log_with_report(state, log, index),
{
    assert(mid.document() == state.document());
}

/// Reporting a command keeps its id, and that it is complete.
proof fn lemma_capture_keeps_id(state: TerminalState, log: LogModel, index: int)
    requires
        0 <= index < log.records.len(),
    ensures
        log_with_report(state, log, index).records[index].id == log.records[index].id,
        log_with_report(state, log, index).records[index].complete == log.records[index].complete,
        log_with_report(state, log, index).records.len() == log.records.len(),
{
    if let Some(output) = record_output(state, log.records[index]) {
        let bytes = utf8_len(output.text);
        let cleared = log.records.update(
            index,
            released(log.records[index]),
        );
        lemma_space_keeps_ids(
            cleared,
            index,
            0,
            MAX_CAPTURED_COMMAND_OUTPUT_BYTES - bytes,
        );
    }
}

/// Making space keeps every id, and which commands are complete.
proof fn lemma_space_keeps_ids(records: Seq<RecordModel>, keep: int, from: int, budget: int)
    ensures
        space_made(records, keep, from, budget).len() == records.len(),
        forall|k: int|
            0 <= k < records.len() ==> (#[trigger] space_made(
                records,
                keep,
                from,
                budget,
            )[k]).id == records[k].id && space_made(records, keep, from, budget)[k].complete
                == records[k].complete,
    decreases records.len() - from,
{
    if 0 <= from < records.len() && captured_total(records) > budget {
        if from != keep {
            lemma_space_keeps_ids(
                records.update(from, released(records[from])),
                keep,
                from + 1,
                budget,
            );
        } else {
            lemma_space_keeps_ids(records, keep, from + 1, budget);
        }
    }
}

} // verus!
