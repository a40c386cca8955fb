//! What the log knows of commands that open, run and end.

use vstd::prelude::*;

use crate::blocks::approval_refusal;
use crate::blocks::reported;
use crate::blocks::visible_input;
use crate::commands::active_index;
use crate::commands::captured_total;
use crate::commands::index_of_id;
use crate::commands::space_made;
use crate::commands::BlockLifecycleHealth;
use crate::commands::CommandState;
use crate::commands::CompletedCommandEvent;
use crate::commands::CompletionProvenance;
use crate::commands::EventModel;
use crate::commands::LogModel;
use crate::commands::PromptInput;
use crate::commands::RecordModel;
use crate::lifecycle::log_with_finished;
use crate::lifecycle::only_log_changed;
use crate::lifecycle::output_bounds;
use crate::lifecycle::output_closed;
use crate::lifecycle::output_registered;
use crate::lifecycle::record_finished;
use crate::lifecycle::record_pushed;
use crate::lifecycle::record_pushed_and_marked;
use crate::lifecycle::zone_lost;
use crate::lifecycle::ClockReading;
use crate::lifecycle::PacketModel;
use crate::marks::log_with_approval;
use crate::marks::log_with_input;
use crate::marks::log_with_running;
use crate::marks::StartModel;
use crate::output::only_active_changed;
use crate::provenance::BufferAnchor;
use crate::provenance::FinishedOutputProvenance;
use crate::state::TerminalState;

verus! {

/// The place of the cursor, by the number of its line; behind the last column where
/// the next character goes to the next row.
pub open spec fn place_of_cursor(state: TerminalState) -> BufferAnchor {
    BufferAnchor {
        line_id: (state.total_lines_scrolled + state.cursor_row) as u64,
        column: if state.pending_wrap {
            state.grid.cols
        } else {
            state.cursor_col
        },
    }
}

/// A command that is opened is the newest one: it begins at the cursor, waits at its
/// prompt, has the next number and no outcome yet. A mark at its line goes with it.
/// The commands before it stay; only a full log lets its oldest go.
pub proof fn opened_commands_begin_at_the_cursor(
    pre: TerminalState,
    packet: PacketModel,
    post: TerminalState,
)
    requires
        pre.core_wf(),
        pre.total_lines_scrolled + pre.rows() <= u64::MAX,
        pre.log@.next_sequence != 0,
        record_pushed_and_marked(pre, packet, post),
    ensures
        ({
            let before = pre.log@.records;
            let after = post.log@.records;
            let newest = after.last();
            &&& after.len() > 0
            &&& newest.prompt_start == place_of_cursor(pre)
            &&& newest.state == CommandState::Prompt
            &&& !newest.complete
            &&& newest.exit_code is None
            &&& newest.sequence == pre.log@.next_sequence
            &&& before.len() < 1024 ==> after.drop_last() == before
            &&& before.len() >= 1024 ==> after.drop_last() == before.drop_first()
            &&& post.command_marks@.len() > 0
            &&& post.command_marks@.last().line_id == place_of_cursor(pre).line_id
            &&& post.command_marks@.last().exit_code is None
            &&& pre.command_marks@.len() < 1024 ==> post.command_marks@.drop_last()
                == pre.command_marks@
            &&& post.grid == pre.grid
        }),
{
    let mid = choose|mid: TerminalState|
        {
            &&& #[trigger] record_pushed(pre, packet, false, mid)
            &&& if pre.log@.next_sequence == 0 {
                post == mid
            } else {
                crate::lifecycle::prompt_marked(mid, post)
            }
        };
    assert(record_pushed(pre, packet, false, mid));
    let before = pre.log@.records;
    let after = post.log@.records;
    if pre.log@.is_full() {
        let lost = choose|lost: TerminalState|
            {
                &&& #[trigger] zone_lost(pre, pre.log@.records[0].sequence, lost)
                &&& only_log_changed(
                    lost,
                    crate::lifecycle::log_with_opened(pre, packet, false),
                    mid,
                )
            };
        assert(only_log_changed(
            lost,
            crate::lifecycle::log_with_opened(pre, packet, false),
            mid,
        ));
        assert(after.drop_last() =~= before.drop_first());
    } else {
        assert(after.drop_last() =~= before);
    }
    assert(pre.command_marks@.len() < 1024 ==> post.command_marks@.drop_last()
        =~= pre.command_marks@);
}

/// Making space drops captured output alone.
proof fn lemma_space(records: Seq<RecordModel>, keep: int, from: int, budget: int, k: int)
    requires
        0 <= k < records.len(),
    ensures
        space_made(records, keep, from, budget).len() == records.len(),
        space_made(records, keep, from, budget)[k] == (RecordModel {
            captured_output: space_made(records, keep, from, budget)[k].captured_output,
            ..records[k]
        }),
    decreases records.len() - from,
{
    if from < 0 || from >= records.len() || captured_total(records) <= budget {
    } else if from != keep {
        lemma_space(
            records.update(from, crate::commands::released(records[from])),
            keep,
            from + 1,
            budget,
            k,
        );
    } else {
        lemma_space(records, keep, from + 1, budget, k);
    }
}

/// A command that ends is complete with the outcome that was given, and keeps its
/// name, its text and where it began. Where the shell reported the end, its
/// duration is the reported one or else the time since it started, in whole
/// milliseconds; an end that was only concluded has none. Other commands keep all
/// but captured output.
pub proof fn ended_commands_have_their_outcome(
    pre: TerminalState,
    index: int,
    exit_code: Option<i32>,
    duration_ms: Option<u64>,
    provenance: CompletionProvenance,
    now: ClockReading,
    post: TerminalState,
    k: int,
)
    requires
        0 <= index < pre.log@.records.len(),
        0 <= k < pre.log@.records.len(),
        record_finished(pre, index, exit_code, duration_ms, provenance, now, post),
    ensures
        ({
            let before = pre.log@.records[index];
            let after = post.log@.records[index];
            &&& post.log@.records.len() == pre.log@.records.len()
            &&& after.complete
            &&& after.state == CommandState::Complete
            &&& after.exit_code == exit_code
            &&& after.completion_provenance == provenance
            &&& after.id == before.id && after.command == before.command && after.sequence
                == before.sequence && after.prompt_start == before.prompt_start && after.cwd
                == before.cwd
            &&& provenance != CompletionProvenance::ShellReported ==> after.duration_ms is None
            &&& provenance == CompletionProvenance::ShellReported && duration_ms is Some
                ==> after.duration_ms == duration_ms
            &&& provenance == CompletionProvenance::ShellReported && duration_ms is None ==> (
            match before.started_ns {
                Some(start) => after.duration_ms == Some(
                    (if now.monotonic_ns > start {
                        (now.monotonic_ns - start) / 1_000_000
                    } else {
                        0
                    }) as u64,
                ),
                None => after.duration_ms is None,
            })
            &&& k != index ==> post.log@.records[k] == (RecordModel {
                captured_output: post.log@.records[k].captured_output,
                ..pre.log@.records[k]
            })
        }),
        provenance == CompletionProvenance::ShellReported || pre.log@.records[index].start_mark_seen
            ==> post.log@.events.len() > 0 && ({
            let event = post.log@.events.last().completed;
            let before = pre.log@.records[index];
            &&& event.id == before.id
            &&& event.command == before.command
            &&& event.exit_code == exit_code
            &&& event.agent_generation == before.agent_generation
            &&& post.log@.events.last().completion_provenance == provenance
            &&& post.log@.events.last().start_mark_seen == before.start_mark_seen
        }),
        post.grid == pre.grid && post.cursor_row == pre.cursor_row,
{
    let zone = pre.log@.records[index].sequence;
    let (closed, mid) = choose|
        closed: Option<(FinishedOutputProvenance, BufferAnchor, BufferAnchor)>,
        mid: TerminalState,
    |
        {
            &&& #[trigger] output_closed(pre, zone, closed, mid)
            &&& only_log_changed(
                mid,
                log_with_finished(
                    mid,
                    index,
                    output_bounds(closed),
                    pre.cursor_anchor(),
                    exit_code,
                    duration_ms,
                    provenance,
                    now,
                ),
                post,
            )
        };
    assert(output_closed(pre, zone, closed, mid));
    let quiet = choose|quiet: TerminalState|
        {
            &&& #[trigger] only_active_changed(pre, None, quiet)
            &&& match closed {
                Some((provenance, _, _)) => output_registered(quiet, provenance, mid),
                None => mid == quiet,
            }
        };
    assert(only_active_changed(pre, None, quiet));
    assert(mid.log == pre.log);
    let log = mid.log@;
    let record = crate::lifecycle::finished_record(
        log.records[index],
        output_bounds(closed),
        pre.cursor_anchor(),
        exit_code,
        duration_ms,
        provenance,
        now,
    );
    let ended = LogModel { records: log.records.update(index, record), ..log };
    lemma_report(mid, ended, index, k);
    lemma_report(mid, ended, index, index);
}

/// Reporting a command changes captured output and the events alone.
proof fn lemma_report(state: TerminalState, log: LogModel, index: int, k: int)
    requires
        0 <= index < log.records.len(),
        0 <= k < log.records.len(),
    ensures
        ({
            let after = crate::lifecycle::log_with_report(state, log, index);
            &&& after.records.len() == log.records.len()
            &&& after.records[k] == (RecordModel {
                captured_output: after.records[k].captured_output,
                ..log.records[k]
            })
            &&& after.events.len() > 0
            &&& after.events.last().completed.id == log.records[index].id
            &&& after.events.last().completed.command == log.records[index].command
            &&& after.events.last().completed.exit_code == log.records[index].exit_code
            &&& after.events.last().completed.agent_generation
                == log.records[index].agent_generation
            &&& after.events.last().completion_provenance
                == log.records[index].completion_provenance
            &&& after.events.last().start_mark_seen == log.records[index].start_mark_seen
            &&& after.consumed_ids == log.consumed_ids
        }),
{
    if let Some(output) = crate::lifecycle::record_output(state, log.records[index]) {
        let bytes = crate::bounded_text::utf8_len(output.text);
        let cleared = log.records.update(
            index,
            crate::commands::released(log.records[index]),
        );
        let budget = crate::commands::MAX_CAPTURED_COMMAND_OUTPUT_BYTES - bytes;
        lemma_space(cleared, index, 0, budget, k);
        lemma_space(cleared, index, 0, budget, index);
    }
}

/// A command whose input begins is being edited, from the cursor on where it was not
/// known before; one that runs is running, and its output begins at the cursor where
/// it was not known before. What was known stays.
pub proof fn marks_move_commands_on(
    pre: TerminalState,
    index: int,
    packet: PacketModel,
    identity: StartModel,
    now: ClockReading,
)
    requires
        0 <= index < pre.log@.records.len(),
        pre.total_lines_scrolled + pre.rows() <= u64::MAX,
        pre.cursor_row < pre.rows(),
    ensures
        ({
            let before = pre.log@.records[index];
            let edited = log_with_input(pre.log@, index, packet, pre.cursor_anchor()).records[index];
            let run = log_with_running(pre, index, packet, identity, now).records[index];
            &&& before.state == CommandState::Prompt ==> edited.state == CommandState::Editing
            &&& before.state == CommandState::Prompt && before.command_start is None
                ==> edited.command_start == Some(place_of_cursor(pre))
            &&& before.command_start is Some ==> edited.command_start == before.command_start
            &&& before.state == CommandState::Running ==> edited.state == CommandState::Running
            &&& edited.output_start == before.output_start && edited.prompt_start
                == before.prompt_start
            &&& run.state == CommandState::Running
            &&& run.start_mark_seen
            &&& before.output_start is None ==> run.output_start == Some(place_of_cursor(pre))
            &&& before.output_start is Some ==> run.output_start == before.output_start
            &&& before.started_ns is None ==> run.started_ns == Some(now.monotonic_ns)
            &&& before.started_ns is Some ==> run.started_ns == before.started_ns
            &&& !before.start_mark_seen ==> run.session_id == identity.session_id && run.seq
                == identity.seq
            &&& before.start_mark_seen ==> run.session_id == before.session_id && run.seq
                == before.seq
            &&& run.prompt_start == before.prompt_start && run.command_start
                == before.command_start
        }),
{
}

/// An approval covers a command only where the command is exactly the approved one,
/// at the prompt it was given for, with nothing typed there; and then it is used up.
/// No other command is covered by it.
pub proof fn approvals_cover_the_approved_command_alone(log: LogModel, index: int)
    requires
        0 <= index < log.records.len(),
    ensures
        ({
            let after = log_with_approval(log, index);
            &&& after.armed is None
            &&& after.records[index].agent_generation matches Some(generation) ==> (
            log.armed matches Some(armed) && armed.generation == generation && log.records[index].command
                == Some(armed.command) && log.records[index].sequence == armed.command_sequence
                && log.prompt_input == PromptInput::Clean)
            &&& (log.armed matches Some(armed) && log.records[index].command == Some(armed.command)
                && log.records[index].sequence == armed.command_sequence && log.prompt_input
                == PromptInput::Clean) ==> after.records[index].agent_generation == Some(
                log.armed->0.generation,
            )
        }),
{
}

/// The command that is found by its name is the newest with it.
pub proof fn commands_are_found_by_their_names(records: Seq<RecordModel>, id: Seq<char>)
    ensures
        match index_of_id(records, id) {
            Some(i) => 0 <= i < records.len() && records[i].id == id && forall|k: int|
                i < k < records.len() ==> (#[trigger] records[k]).id != id,
            None => forall|k: int| 0 <= k < records.len() ==> (#[trigger] records[k]).id != id,
        },
    decreases records.len(),
{
    if records.len() > 0 {
        let head = records.drop_last();
        commands_are_found_by_their_names(head, id);
        assert forall|k: int| 0 <= k < head.len() implies #[trigger] records[k] == head[k] by {}
    }
}

/// The active command is the newest that is not complete.
pub proof fn the_active_command_is_the_newest_open_one(records: Seq<RecordModel>)
    ensures
        match active_index(records) {
            Some(i) => 0 <= i < records.len() && !records[i].complete && forall|k: int|
                i < k < records.len() ==> (#[trigger] records[k]).complete,
            None => forall|k: int| 0 <= k < records.len() ==> (#[trigger] records[k]).complete,
        },
    decreases records.len(),
{
    if records.len() > 0 {
        let head = records.drop_last();
        the_active_command_is_the_newest_open_one(head);
        assert forall|k: int| 0 <= k < head.len() implies #[trigger] records[k] == head[k] by {}
    }
}

/// A finished command can be trusted where its start was seen and the shell reported
/// its end; every other one cannot.
pub proof fn only_whole_commands_are_trusted(
    event: CompletedCommandEvent,
    health: BlockLifecycleHealth,
    trusted: bool,
)
    requires
        call_ensures(CompletedCommandEvent::lifecycle_health, (&event,), health),
        call_ensures(CompletedCommandEvent::is_trusted_completion, (&event,), trusted),
    ensures
        trusted <==> event.start_mark_seen && event.completion_provenance
            == CompletionProvenance::ShellReported,
        trusted ==> health == BlockLifecycleHealth::Healthy,
        !trusted ==> health == BlockLifecycleHealth::Degraded,
{
}

/// The outputs that are handed out are those of the ends that the shell reported,
/// all of them and in order.
pub proof fn reported_ends_are_handed_out(events: Seq<EventModel>, next: EventModel)
    ensures
        reported(Seq::<EventModel>::empty()) == Seq::<EventModel>::empty(),
        next.completion_provenance == CompletionProvenance::ShellReported ==> reported(
            events.push(next),
        ) == reported(events).push(next),
        next.completion_provenance != CompletionProvenance::ShellReported ==> reported(
            events.push(next),
        ) == reported(events),
{
    assert(events.push(next).drop_last() =~= events);
}

/// The text of the running command is that of the newest one, without white space
/// around it, and its time is counted from its start in whole milliseconds.
pub proof fn the_running_command_is_the_newest(
    state: TerminalState,
    now_ns: u64,
    command: Option<String>,
    duration: Option<u64>,
    ready: bool,
)
    requires
        state.log@.records.len() > 0,
        call_ensures(TerminalState::running_command, (&state,), command),
        call_ensures(TerminalState::running_duration_ms_at, (&state, now_ns), duration),
        call_ensures(TerminalState::shell_is_prompt_ready, (&state,), ready),
    ensures
        ({
            let newest = state.log@.records.last();
            let runs = !newest.complete && newest.state == CommandState::Running;
            &&& !runs ==> command is None && duration is None
            &&& runs && newest.started_ns is None ==> duration is None
            &&& runs && newest.started_ns is Some ==> duration == Some(
                (if now_ns > newest.started_ns->0 {
                    (now_ns - newest.started_ns->0) / 1_000_000
                } else {
                    0
                }) as u64,
            )
            &&& command matches Some(text) ==> (newest.command matches Some(whole) && text@
                == crate::fields::trimmed(whole))
            &&& runs && newest.command is Some && crate::fields::trimmed(newest.command->0).len()
                > 0 ==> command is Some
            &&& ready <==> !newest.complete && newest.state == CommandState::Editing
        }),
{
}

/// A command is approved only with a number, where it can be shown on one line, at an
/// empty prompt that waits for input and that nothing was typed at, while no other is
/// approved; and then it is.
pub proof fn commands_are_approved_at_an_untouched_prompt(
    state: TerminalState,
    generation: u64,
    command: Seq<char>,
)
    ensures
        approval_refusal(state, generation, command) is None <==> ({
            let log = state.log@;
            &&& generation != 0
            &&& command.len() > 0
            &&& crate::bounded_text::utf8_len(command) <= 16384
            &&& crate::osc133::all_displayable(command)
            &&& log.prompt_input == PromptInput::Clean
            &&& log.armed is None
            &&& log.records.len() > 0
            &&& !log.records.last().complete
            &&& log.records.last().state == CommandState::Editing
            &&& visible_input(state) is Some
            &&& crate::fields::trimmed(visible_input(state)->0).len() == 0
        }),
{
}

/// What stands at the prompt is what the screen shows from where the input begins up
/// to the cursor.
pub proof fn the_input_is_what_the_screen_shows(
    state: TerminalState,
    start: BufferAnchor,
    empty: bool,
)
    requires
        state.core_wf(),
        state.log@.records.len() > 0,
        state.log@.records.last().command_start == Some(start),
        call_ensures(TerminalState::prompt_input_is_empty, (&state,), empty),
    ensures
        empty ==> state.log@.prompt_input == PromptInput::Clean
            && state.log@.records.last().state == CommandState::Editing
            && !state.log@.records.last().complete,
        visible_input(state) matches Some(text) ==> crate::extraction::range_retained(
            state,
            start,
            state.cursor_anchor(),
        ) && text == crate::bounded_text::bounded(
            crate::extraction::anchored_text(state, start, state.cursor_anchor()),
            crate::osc133::MAX_OSC_133_COMMAND_BYTES as int,
        ),
        empty ==> visible_input(state) == Some(Seq::<char>::empty()),
{
    if empty {
        assert(visible_input(state)->0 =~= Seq::<char>::empty());
    }
}

} // verus!
