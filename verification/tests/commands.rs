use ember_terminal::bounded_text::ExtractedText;
use ember_terminal::commands::BlockLifecycleHealth;
use ember_terminal::commands::CommandState;
use ember_terminal::commands::CompletionProvenance;
use ember_terminal::commands::MAX_CAPTURED_COMMAND_OUTPUT_BYTES;
use ember_terminal::commands::MAX_COMMAND_MARKS;
use ember_terminal::commands::MAX_COMPLETED_COMMAND_OUTPUT_BYTES;
use ember_terminal::commands::MAX_CONSUMED_COMMAND_IDS;
use ember_terminal::osc133::MAX_OSC_133_COMMAND_BYTES;
use ember_terminal::osc133::MAX_OSC_133_ID_BYTES;
use ember_terminal::provenance::BufferAnchor;
use ember_terminal::state::TerminalState;

fn emit_completed_block(terminal: &mut TerminalState, index: usize) -> u64 {
    terminal.process_input(
        format!(
            "\x1b]133;A\x07$ \x1b]133;B\x07cmd-{index}\r\n\x1b]133;C\x07out-{index}\r\n\x1b]133;D;0\x07"
        )
        .as_bytes(),
    );
    terminal.command_records().back().unwrap().sequence
}

#[test]
fn prompt_mark_presence_distinguishes_plain_shell_output_from_shell_integration() {
    let mut plain = TerminalState::new(8, 4);
    plain.process_input(b"$ printf ok\r\nok\r\n");
    assert!(!plain.has_prompt_marks());

    let mut marked = TerminalState::new(8, 4);
    marked.process_input(b"\x1b]133;A\x07$ \x1b]133;B\x07");
    assert!(marked.has_prompt_marks());
}

#[test]
fn osc_133_d_attaches_exit_code_to_last_mark() {
    let mut terminal = TerminalState::new(8, 4);

    terminal.process_input(b"\x1b]133;A\x07");
    terminal.process_input(b"\x1b]133;D;42\x07");

    assert_eq!(terminal.command_marks.len(), 1);
    assert_eq!(terminal.command_marks[0].exit_code, Some(42));
}

#[test]
fn osc_133_d_without_exit_code_leaves_none() {
    let mut terminal = TerminalState::new(8, 4);

    terminal.process_input(b"\x1b]133;A\x07");
    terminal.process_input(b"\x1b]133;D\x07");

    assert_eq!(terminal.command_marks.len(), 1);
    assert_eq!(terminal.command_marks[0].exit_code, None);
}

#[test]
fn shell_reported_d_without_c_is_degraded_for_new_consumers_but_legacy_visible() {
    let mut terminal = TerminalState::new(24, 4);
    terminal.process_input(b"\x1b]133;A\x07\x1b]133;D;0\x07");
    let events = terminal.take_completed_command_events();
    assert_eq!(events.len(), 1);
    assert!(!events[0].start_mark_seen);
    assert_eq!(
        events[0].completion_provenance,
        CompletionProvenance::ShellReported
    );
    assert_eq!(
        events[0].lifecycle_health(),
        BlockLifecycleHealth::Degraded
    );
    assert!(!events[0].is_trusted_completion());

    let mut compatible = TerminalState::new(24, 4);
    compatible.process_input(b"\x1b]133;A\x07\x1b]133;D;0\x07");
    assert_eq!(compatible.take_completed_command_outputs().len(), 1);

    let mut editing = TerminalState::new(24, 4);
    editing.process_input(
        b"\x1b]133;A\x07$ \x1b]133;B\x07echo safe\x1b]133;D;1;cmdline_url=echo%20safe\x07",
    );
    let events = editing.take_completed_command_events();
    assert_eq!(events.len(), 1);
    assert_eq!(events[0].completed.command.as_deref(), Some("echo safe"));
    assert!(!events[0].start_mark_seen);
    assert!(!events[0].is_trusted_completion());
}

#[test]
fn osc_133_records_full_lifecycle_metadata_and_completed_output() {
    let mut terminal = TerminalState::new(16, 5);

    terminal.process_input(b"\x1b]133;A\x07$ \x1b]133;B;jsh_id=exec-7\x07");
    assert!(terminal.shell_is_prompt_ready());
    terminal.process_input(b"echo hi\r\n");
    terminal.process_input(b"\x1b]133;C;jsh_id=exec-7;cmdline_url=echo%20hi;cwd=%2Ftmp\x07");
    assert!(!terminal.shell_is_prompt_ready());
    terminal.process_input(b"hello\r\n");
    terminal.process_input(b"\x1b]133;D;0;jsh_id=exec-7;duration_ms=12;cwd=%2Ftmp%2Fafter\x07");

    let records = terminal.command_records();
    assert_eq!(records.len(), 1);
    let record = &records[0];
    assert_eq!(record.id, "exec-7");
    assert_eq!(record.command.as_deref(), Some("echo hi"));
    assert!(record.command_exact);
    assert!(!record.command_truncated);
    assert_eq!(record.cwd.as_deref(), Some("/tmp"));
    assert_eq!(record.cwd_after.as_deref(), Some("/tmp/after"));
    assert_eq!(record.exit_code, Some(0));
    assert_eq!(record.duration_ms, Some(12));
    assert_eq!(record.state, CommandState::Complete);
    assert!(record.complete);
    assert!(record.start_mark_seen);
    assert_eq!(
        record.completion_provenance,
        CompletionProvenance::ShellReported
    );
    assert_eq!(terminal.current_working_dir.as_deref(), Some("/tmp/after"));
    assert_eq!(record.prompt_start.column, 0);
    assert_eq!(record.command_start.expect("B anchor").column, 2);
    assert!(record.output_start.is_some());
    assert_eq!(record.output_end, record.end);

    let output = terminal
        .command_output_text("exec-7", 1024)
        .expect("retained command output");
    assert_eq!(output.text, "hello\n");
    assert!(!output.truncated);
    assert_eq!(output.total_bytes, output.text.len());

    let completed = terminal.take_completed_command_outputs();
    assert_eq!(completed.len(), 1);
    assert_eq!(completed[0].id, "exec-7");
    assert_eq!(completed[0].output, "hello\n");
    assert!(completed[0].output_available);
    assert!(terminal.take_completed_command_outputs().is_empty());
}

#[test]
fn finished_output_range_is_exact_on_a_shared_raw_row() {
    let mut terminal = TerminalState::new(24, 4);
    terminal.process_input(
        b"\x1b]133;A\x07pre\x1b]133;B\x07\x1b]133;C;id=exact\x07OUT\x1b]133;D;0;id=exact\x07suffix",
    );

    let record = terminal.command_record("exact").expect("completed record");
    let range = terminal
        .finished_output_range(record.sequence)
        .expect("exact retained output range");
    assert_eq!(range.start.row, range.end.row);
    assert_eq!((range.start.col, range.end.col), (3, 6));
    assert_eq!(terminal.grid.rows[0].cells[range.start.col].character, 'O');
    assert_eq!(terminal.grid.rows[0].cells[range.end.col].character, 's');
}

#[test]
fn finished_output_range_survives_suffix_filling_and_wrapping_outside_it() {
    let mut terminal = TerminalState::new(8, 4);
    terminal.process_input(
        b"\x1b]133;A\x07\x1b]133;C;id=suffix-wrap\x07OUT\x1b]133;D;0;id=suffix-wrap\x07",
    );
    let sequence = terminal.command_record("suffix-wrap").unwrap().sequence;
    let exact = terminal.finished_output_range(sequence).unwrap();

    terminal.process_input(b"abcde");
    assert!(terminal.pending_wrap);
    assert_eq!(terminal.finished_output_range(sequence), Some(exact));

    terminal.process_input(b"Z");
    assert_eq!(terminal.finished_output_range(sequence), Some(exact));
}

#[test]
fn finished_output_content_mutations_fail_closed_without_stale_owners() {
    for (label, mutation) in [
        ("overwrite", "\rZ"),
        ("ech", "\r\x1b[X"),
        ("el", "\r\x1b[K"),
        ("ed", "\x1b[2J"),
    ] {
        let mut terminal = TerminalState::new(12, 4);
        let lifecycle =
            format!("\x1b]133;A\x07\x1b]133;C;id={label}\x07OUT\x1b]133;D;0;id={label}\x07");
        terminal.process_input(lifecycle.as_bytes());
        let sequence = terminal.command_record(label).unwrap().sequence;
        assert!(
            terminal.finished_output_range(sequence).is_some(),
            "{label}"
        );

        terminal.process_input(mutation.as_bytes());
        assert_eq!(terminal.finished_output_range(sequence), None, "{label}");
        assert!(
            terminal
                .provenance.owners
                .values()
                .flatten()
                .all(|owner| owner.zone_id != sequence),
            "{label} left a stale reverse-index owner"
        );
    }
}

#[test]
fn finished_output_shift_and_wide_mutations_fail_closed() {
    for (label, mutation) in [
        ("ich", "\r\x1b[@"),
        ("dch", "\r\x1b[P"),
        ("irm", "\r\x1b[4hZ"),
    ] {
        let mut terminal = TerminalState::new(12, 4);
        let lifecycle =
            format!("\x1b]133;A\x07\x1b]133;C;id={label}\x07OUT\x1b]133;D;0;id={label}\x07");
        terminal.process_input(lifecycle.as_bytes());
        let sequence = terminal.command_record(label).unwrap().sequence;
        terminal.process_input(mutation.as_bytes());
        assert_eq!(terminal.finished_output_range(sequence), None, "{label}");
    }

    let mut wide = TerminalState::new(8, 3);
    wide.process_input("\x1b]133;A\x07\x1b]133;C;id=wide\x07界\x1b]133;D;0;id=wide\x07".as_bytes());
    let sequence = wide.command_record("wide").unwrap().sequence;
    wide.process_input(b"\x1b[1;2HX");
    assert_eq!(
        wide.finished_output_range(sequence),
        None,
        "overwriting a wide continuation must invalidate the whole glyph owner"
    );

    let mut combining = TerminalState::new(8, 3);
    combining
        .process_input(b"\x1b]133;A\x07\x1b]133;C;id=combining\x07e\x1b]133;D;0;id=combining\x07");
    let sequence = combining.command_record("combining").unwrap().sequence;
    combining.process_input("\u{301}".as_bytes());
    assert_eq!(combining.grid.rows[0].cells[0].character, 'é');
    assert_eq!(combining.finished_output_range(sequence), None);
}

#[test]
fn finished_output_reverse_index_invalidates_only_the_intersecting_same_row_zone() {
    let mut terminal = TerminalState::new(12, 4);
    terminal.process_input(
        b"\x1b]133;A\x07\x1b]133;C;id=one\x07aa\x1b]133;D;0;id=one\x07\
          \x1b]133;A\x07\x1b]133;C;id=two\x07bb\x1b]133;D;0;id=two\x07",
    );
    let one = terminal.command_record("one").unwrap().sequence;
    let two = terminal.command_record("two").unwrap().sequence;
    let second_range = terminal.finished_output_range(two).unwrap();
    assert!(terminal.finished_output_range(one).is_some());

    terminal.process_input(b"\rZ");
    assert_eq!(terminal.finished_output_range(one), None);
    assert_eq!(terminal.finished_output_range(two), Some(second_range));
}

#[test]
fn partial_region_scroll_drops_only_discarded_raw_row_provenance() {
    let mut down = TerminalState::new(8, 4);
    down.process_input(b"\x1b[3;1H\x1b]133;A\x07\x1b]133;C;id=down\x07x\x1b]133;D;0;id=down\x07");
    let sequence = down.command_record("down").unwrap().sequence;
    let dropped = down.grid.row_id(2);
    assert!(down.provenance.owners.contains_key(&dropped.raw));
    down.scroll_region_down(1, 2);
    assert_eq!(down.finished_output_range(sequence), None);
    assert!(!down.provenance.owners.contains_key(&dropped.raw));

    let mut up = TerminalState::new(8, 4);
    up.process_input(b"\x1b[2;1H\x1b]133;A\x07\x1b]133;C;id=up\x07x\x1b]133;D;0;id=up\x07");
    let sequence = up.command_record("up").unwrap().sequence;
    let dropped = up.grid.row_id(1);
    assert!(up.provenance.owners.contains_key(&dropped.raw));
    up.scroll_region_up(1, 2);
    assert_eq!(up.finished_output_range(sequence), None);
    assert!(!up.provenance.owners.contains_key(&dropped.raw));
}

#[test]
fn finished_output_range_follows_identity_preserving_partial_line_moves() {
    let mut terminal = TerminalState::new(8, 4);
    terminal.process_input(
        b"\x1b[2;1H\x1b]133;A\x07\x1b]133;C;id=moved\x07OUT\x1b]133;D;0;id=moved\x07",
    );
    let sequence = terminal.command_record("moved").unwrap().sequence;
    let exact = terminal.finished_output_range(sequence).unwrap();

    terminal.process_input(b"\x1b[1;1H\x1b[L");

    assert_eq!(terminal.finished_output_range(sequence), Some(exact));
    assert_eq!(terminal.grid.rows[2].cells[0].character, 'O');
}

#[test]
fn zero_count_delete_lines_keeps_finished_output_provenance() {
    let mut terminal = TerminalState::new(8, 4);
    terminal
        .process_input(b"\x1b]133;A\x07\x1b]133;C;id=zero-dl\x07OUT\x1b]133;D;0;id=zero-dl\x07");
    let sequence = terminal.command_record("zero-dl").unwrap().sequence;
    let exact = terminal.finished_output_range(sequence).unwrap();

    terminal.process_input(b"\x1b[1;1H\x1b[0M");

    assert_eq!(terminal.finished_output_range(sequence), Some(exact));
}

#[test]
fn zero_count_character_shifts_keep_finished_output_provenance() {
    for (label, control) in [("zero-ich", "\x1b[0@"), ("zero-dch", "\x1b[0P")] {
        let mut terminal = TerminalState::new(8, 4);
        let lifecycle =
            format!("\x1b]133;A\x07\x1b]133;C;id={label}\x07OUT\x1b]133;D;0;id={label}\x07");
        terminal.process_input(lifecycle.as_bytes());
        let sequence = terminal.command_record(label).unwrap().sequence;
        let exact = terminal.finished_output_range(sequence).unwrap();

        terminal.process_input(b"\r");
        terminal.process_input(control.as_bytes());

        assert_eq!(
            terminal.finished_output_range(sequence),
            Some(exact),
            "{label}"
        );
    }
}

#[test]
fn cursor_positioning_without_output_never_invents_structural_rows() {
    for (label, control) in [
        ("cup-down", "\x1b[3;1H"),
        ("cud-down", "\x1b[2B"),
        ("vpa-down", "\x1b[3d"),
    ] {
        let mut terminal = TerminalState::new(8, 4);
        let lifecycle =
            format!("\x1b]133;A\x07\x1b]133;C;id={label}\x07{control}\x1b]133;D;0;id={label}\x07");
        terminal.process_input(lifecycle.as_bytes());
        let sequence = terminal.command_record(label).unwrap().sequence;
        assert_eq!(terminal.finished_output_range(sequence), None, "{label}");
    }
}

#[test]
fn repeated_output_start_keeps_one_canonical_range_and_capture() {
    let mut terminal = TerminalState::new(24, 4);
    terminal.process_input(
        b"\x1b]133;A\x07\x1b]133;C;id=repeat-c\x07first\x1b]133;C;id=repeat-c\x07second\x1b]133;D;0;id=repeat-c\x07",
    );

    let record = terminal.command_record("repeat-c").unwrap();
    let range = terminal.finished_output_range(record.sequence).unwrap();
    assert_eq!((range.start.col, range.end.col), (0, 11));
    assert_eq!(
        terminal.command_output_text("repeat-c", 1024).unwrap().text,
        "firstsecond"
    );
}

#[test]
fn pending_wrap_at_output_start_rebases_to_the_first_real_output_row() {
    let mut terminal = TerminalState::new(4, 4);
    terminal.process_input(
        b"HEAD\x1b]133;A\x07\x1b]133;C;id=start-wrap\x07X\x1b]133;D;0;id=start-wrap\x07",
    );

    let record = terminal.command_record("start-wrap").unwrap();
    let range = terminal.finished_output_range(record.sequence).unwrap();
    assert_ne!(range.start.row, terminal.grid.row_id(0));
    assert_eq!((range.start.col, range.end.col), (0, 1));
    assert_eq!(
        terminal
            .command_output_text("start-wrap", 1024)
            .unwrap()
            .text,
        "X"
    );
}

#[test]
fn output_write_above_c_fails_closed_without_owning_the_header() {
    let mut terminal = TerminalState::new(16, 4);
    terminal.process_input(
        b"\x1b]133;A\x07HEADER\r\n\x1b]133;C;id=cup-up\x07out\x1b[1;1HZ\x1b[2;4H\x1b]133;D;0;id=cup-up\x07",
    );
    let sequence = terminal.command_record("cup-up").unwrap().sequence;
    assert_eq!(terminal.finished_output_range(sequence), None);
}

#[test]
fn implicit_next_prompt_finalizes_the_exact_output_range() {
    let mut terminal = TerminalState::new(16, 4);
    terminal.process_input(b"\x1b]133;A\x07\x1b]133;C;id=implicit\x07hello");
    let sequence = terminal.command_record("implicit").unwrap().sequence;
    terminal.process_input(b"\x1b]133;A\x07");

    let record = terminal.command_record("implicit").unwrap();
    assert!(record.complete);
    assert!(record.start_mark_seen);
    assert_eq!(record.duration_ms, None);
    assert_eq!(record.finished_at, None);
    assert_eq!(
        record.completion_provenance,
        CompletionProvenance::BoundaryInferred
    );
    let range = terminal
        .finished_output_range(sequence)
        .expect("implicit A binds retained output");
    assert_eq!((range.start.col, range.end.col), (0, 5));
    let inferred = terminal.take_completed_command_events();
    assert_eq!(inferred.len(), 1);
    assert_eq!(inferred[0].completed.exit_code, None);
    assert_eq!(
        inferred[0].completion_provenance,
        CompletionProvenance::BoundaryInferred
    );

    let mut compatible = TerminalState::new(16, 4);
    compatible.process_input(b"\x1b]133;A\x07\x1b]133;C;id=implicit-compat\x07hello");
    compatible.process_input(b"\x1b]133;A\x07");
    assert!(
        compatible.take_completed_command_outputs().is_empty(),
        "the legacy provenance-free drain must not expose inferred completions"
    );
}

#[test]
fn osc_133_d_identity_never_falls_back_across_named_lifecycles() {
    let mut terminal = TerminalState::new(24, 5);
    terminal.process_input(
        b"\x1b]133;A;id=run-1\x07$ \x1b]133;B;id=run-1\x07echo one\r\n\x1b]133;C;id=run-1;cmdline_url=echo%20one\x07one",
    );

    terminal.process_input(b"\x1b]133;D;0;id=other\x07");
    terminal.process_input(b"\x1b]133;D;0;id=bad%ZZ\x07");
    let live = terminal.command_record("run-1").expect("named live record");
    assert!(!live.complete);
    assert_eq!(live.state, CommandState::Running);
    assert!(terminal.take_completed_command_outputs().is_empty());

    terminal.process_input(b"\x1b]133;D;0;id=run-1\x07");
    assert!(terminal.command_record("run-1").unwrap().complete);
    assert_eq!(terminal.take_completed_command_outputs().len(), 1);

    terminal.process_input(
        b"\x1b]133;A;id=run-2\x07$ \x1b]133;B;id=run-2\x07echo two\r\n\x1b]133;C;id=run-2;cmdline_url=echo%20two\x07two",
    );
    terminal.process_input(b"\x1b]133;D;0;id=run-1\x07");
    assert!(!terminal.command_record("run-2").unwrap().complete);
    assert!(terminal.take_completed_command_outputs().is_empty());

    terminal.process_input(b"\x1b]133;D;0;id=run-2\x07");
    assert!(terminal.command_record("run-2").unwrap().complete);
    assert_eq!(terminal.take_completed_command_outputs().len(), 1);
}

#[test]
fn consumed_command_id_authority_is_bounded_to_the_recent_window() {
    let mut terminal = TerminalState::new(8, 2);
    for index in 0..=MAX_CONSUMED_COMMAND_IDS {
        terminal
            .log
            .remember_consumed_command_id(&format!("run-{index}"));
    }
    assert_eq!(
        terminal.log.consumed_ids.len(),
        MAX_CONSUMED_COMMAND_IDS
    );
    assert!(!terminal.log.command_id_was_consumed(&"run-0".to_string()));
    assert!(terminal
        .log
        .command_id_was_consumed(&format!("run-{}", MAX_CONSUMED_COMMAND_IDS)));
}

#[test]
fn finished_output_range_fails_closed_after_cursor_back() {
    for (id, cursor_move) in [("cr", "\r"), ("backspace", "\x08"), ("cup", "\x1b[1;2H")] {
        let mut terminal = TerminalState::new(16, 4);
        let lifecycle = format!(
            "\x1b]133;A\x07\x1b]133;C;id={id}\x07abcdef{cursor_move}\x1b]133;D;0;id={id}\x07"
        );
        terminal.process_input(lifecycle.as_bytes());
        let sequence = terminal.command_record(id).unwrap().sequence;
        assert_eq!(terminal.finished_output_range(sequence), None, "{id}");
    }
}

#[test]
fn finished_output_range_shrinks_start_after_a_real_leftward_write() {
    let mut terminal = TerminalState::new(16, 4);
    terminal.process_input(
        b"pre\x1b]133;A\x07\x1b]133;C;id=left-write\x07abc\rZ\x1b]133;D;0;id=left-write\x07",
    );
    let record = terminal.command_record("left-write").unwrap();
    let range = terminal
        .finished_output_range(record.sequence)
        .expect("a real write after CR expands output ownership leftward");

    assert_eq!((range.start.col, range.end.col), (0, 6));
    assert_eq!(terminal.grid.rows[0].cells[0].character, 'Z');
    assert_eq!(
        terminal
            .command_output_text("left-write", 1024)
            .expect("capture uses the same effective boundaries")
            .text,
        "Zreabc"
    );
}

#[test]
fn finished_output_range_expands_wide_boundaries_atomically() {
    let mut terminal = TerminalState::new(8, 3);
    terminal.process_input("界".as_bytes());
    let provenance = terminal
        .bind_finished_output_provenance(7, 0, 1, 0, 1)
        .expect("wide continuation boundaries expand to the complete glyph");
    assert_eq!(
        (provenance.range.start.col, provenance.range.end.col),
        (0, 2)
    );
}

#[test]
fn finished_output_range_keeps_pending_wrap_and_blank_rows() {
    let mut wrapped = TerminalState::new(4, 4);
    wrapped.process_input(b"\x1b]133;A\x07\x1b]133;C;id=wrap\x07abcd\x1b]133;D;0;id=wrap\x07");
    let record = wrapped.command_record("wrap").unwrap();
    let range = wrapped.finished_output_range(record.sequence).unwrap();
    assert_eq!((range.start.col, range.end.col), (0, 4));

    let mut blank = TerminalState::new(8, 4);
    blank.process_input(b"\x1b]133;A\x07\x1b]133;C;id=blank\x07x\r\n\r\n\x1b]133;D;0;id=blank\x07");
    let record = blank.command_record("blank").unwrap();
    let provenance = blank
        .provenance
        .zones
        .get(&record.sequence)
        .expect("blank structural row remains provenance");
    assert_eq!(provenance.rows.len(), 2);
    assert_eq!(provenance.range.end.col, 8);
}

#[test]
fn finished_output_sidecar_is_cleaned_on_row_and_record_eviction() {
    let mut row_eviction = TerminalState::new(8, 2);
    row_eviction.set_max_scrollback(1);
    row_eviction.process_input(b"\x1b]133;A\x07\x1b]133;C;id=old\x07x\x1b]133;D;0;id=old\x07");
    let old_sequence = row_eviction.command_record("old").unwrap().sequence;
    assert!(row_eviction.finished_output_range(old_sequence).is_some());
    row_eviction.process_input(b"\r\none\r\ntwo\r\nthree\r\n");
    assert_eq!(row_eviction.finished_output_range(old_sequence), None);
    assert!(!row_eviction
        .provenance
        .zones
        .contains_key(&old_sequence));

    let mut record_eviction = TerminalState::new(1024, 4);
    record_eviction
        .process_input(b"\x1b]133;A\x07\x1b]133;C;id=first\x07x\x1b]133;D;0;id=first\x07");
    let first_sequence = record_eviction.command_record("first").unwrap().sequence;
    assert!(record_eviction
        .provenance
        .zones
        .contains_key(&first_sequence));
    for index in 0..MAX_COMMAND_MARKS {
        let lifecycle = format!(
            "\x1b]133;A\x07\x1b]133;C;id=later-{index}\x07x\x1b]133;D;0;id=later-{index}\x07"
        );
        record_eviction.process_input(lifecycle.as_bytes());
    }
    assert!(!record_eviction
        .provenance
        .zones
        .contains_key(&first_sequence));
}

#[test]
fn finished_output_provenance_survives_only_same_size_resize_noops() {
    let mut completed = TerminalState::new(12, 4);
    completed.process_input(b"\x1b]133;A\x07\x1b]133;C;id=resize\x07ok\x1b]133;D;0;id=resize\x07");
    let sequence = completed.command_record("resize").unwrap().sequence;
    let exact = completed.finished_output_range(sequence).unwrap();

    completed.on_resize(12, 4);
    assert_eq!(completed.finished_output_range(sequence), Some(exact));
    completed.on_resize(13, 4);
    assert_eq!(completed.finished_output_range(sequence), None);

    let mut active = TerminalState::new(12, 4);
    active.process_input(b"\x1b]133;A\x07\x1b]133;C;id=active-resize\x07before");
    let sequence = active.command_record("active-resize").unwrap().sequence;
    active.on_resize(12, 5);
    active.process_input(b"after\x1b]133;D;0;id=active-resize\x07");
    assert_eq!(active.finished_output_range(sequence), None);
}

#[test]
fn alternate_screen_writes_do_not_contaminate_primary_output_provenance() {
    let mut terminal = TerminalState::new(12, 4);
    terminal.process_input(b"\x1b]133;A\x07\x1b]133;C;id=alt-safe\x07P");
    terminal.process_input(b"\x1b[?1049hALT\x1b[?1049lQ\x1b]133;D;0;id=alt-safe\x07");

    let record = terminal.command_record("alt-safe").unwrap();
    let range = terminal.finished_output_range(record.sequence).unwrap();
    assert_eq!((range.start.col, range.end.col), (0, 2));
    assert_eq!(terminal.grid.rows[0].cells[0].character, 'P');
    assert_eq!(terminal.grid.rows[0].cells[1].character, 'Q');
}

#[test]
fn structural_blank_output_rows_bind_but_zero_length_output_does_not() {
    let mut blank = TerminalState::new(8, 4);
    blank.process_input(
        b"\x1b]133;A\x07\x1b]133;C;id=structural\x07\r\n\r\n\x1b]133;D;0;id=structural\x07",
    );
    let record = blank.command_record("structural").unwrap();
    let provenance = blank
        .provenance
        .zones
        .get(&record.sequence)
        .expect("two structural rows are exact output");
    assert_eq!(provenance.rows.len(), 2);
    assert_eq!(
        (provenance.range.start.col, provenance.range.end.col),
        (0, 8)
    );

    let mut empty = TerminalState::new(8, 4);
    empty.process_input(b"\x1b]133;A\x07\x1b]133;C;id=empty\x07\x1b]133;D;0;id=empty\x07");
    let sequence = empty.command_record("empty").unwrap().sequence;
    assert_eq!(empty.finished_output_range(sequence), None);
}

#[test]
fn long_finished_range_front_eviction_checks_only_each_record_start() {
    let mut terminal = TerminalState::new(8, 2);
    terminal.set_max_scrollback(128);
    terminal.process_input(b"\x1b]133;A\x07\x1b]133;C;id=long\x07");
    for _ in 0..48 {
        terminal.process_input(b"x\r\n");
    }
    terminal.process_input(b"\x1b]133;D;0;id=long\x07");
    let sequence = terminal.command_record("long").unwrap().sequence;
    assert!(terminal
        .provenance
        .zones
        .get(&sequence)
        .is_some_and(|provenance| provenance.rows.len() > 40));

    terminal.set_max_scrollback(1);
    assert!(!terminal.provenance.zones.contains_key(&sequence));
}

#[test]
fn command_sequence_exhaustion_seals_records_and_output_sidecars() {
    let mut terminal = TerminalState::new(16, 4);
    terminal.log.next_sequence = u64::MAX;
    terminal.process_input(b"\x1b]133;A\x07\x1b]133;C;id=last\x07x\x1b]133;D;0;id=last\x07");
    let last = terminal
        .command_record("last")
        .expect("u64::MAX is issued once");
    assert_eq!(last.sequence, u64::MAX);
    assert!(terminal.finished_output_range(last.sequence).is_some());
    let records = terminal.log.records.len();
    let sidecars = terminal.provenance.zones.len();
    let marks = terminal.command_marks.len();

    terminal.process_input(b"\x1b]133;A\x07\x1b]133;C;id=reused\x07y\x1b]133;D;0;id=reused\x07");
    assert_eq!(terminal.log.next_sequence, 0);
    assert_eq!(terminal.log.records.len(), records);
    assert_eq!(terminal.provenance.zones.len(), sidecars);
    assert_eq!(terminal.command_marks.len(), marks);
    assert!(terminal.command_record("reused").is_none());

    terminal.process_input(b"\x1bc");
    assert_eq!(terminal.log.next_sequence, 0);
    terminal
        .process_input(b"\x1b]133;A\x07\x1b]133;C;id=after-ris\x07z\x1b]133;D;0;id=after-ris\x07");
    assert!(terminal.log.records.is_empty());
    assert!(terminal.provenance.zones.is_empty());
}

#[test]
fn finished_output_revision_exhaustion_stays_uncacheable() {
    let mut terminal = TerminalState::new(12, 3);
    terminal.provenance.revision = u64::MAX;
    let _ = emit_completed_block(&mut terminal, 0);
    assert_eq!(terminal.finished_output_revision(), 0);

    terminal.process_input(b"\rZ");
    assert_eq!(terminal.finished_output_revision(), 0);
}

#[test]
fn replay_prompt_guard_treats_whitespace_as_existing_user_input() {
    let mut terminal = TerminalState::new(18, 5);
    terminal.process_input(b"\x1b]133;A\x07$ \x1b]133;B;jsh_id=live\x07");
    assert!(terminal.prompt_input_is_empty());
    terminal.note_user_input(b" ");
    terminal.process_input(b" ");
    assert!(
        !terminal.prompt_input_is_empty(),
        "reinput must not append to or overwrite a whitespace-only edit"
    );
}

#[test]
fn agent_generation_is_local_one_shot_and_requires_a_fresh_empty_prompt() {
    let mut terminal = TerminalState::new(24, 5);
    terminal.process_input(b"\x1b]133;A\x07$ \x1b]133;B\x07");
    terminal
        .arm_agent_execution(41, "ls -la")
        .expect("fresh empty prompt can be armed");
    terminal.process_input(b"ls -la\r\n\x1b]133;C;cmdline_url=ls%20-la\x07ok\r\n");
    terminal.process_input(b"\x1b]133;D;0\x07");

    let completed = terminal.take_completed_command_events();
    assert_eq!(completed.len(), 1);
    assert_eq!(completed[0].completed.command.as_deref(), Some("ls -la"));
    assert_eq!(completed[0].completed.agent_generation, Some(41));

    terminal.process_input(b"\x1b]133;A\x07$ \x1b]133;B\x07ls -la\r\n");
    terminal.process_input(b"\x1b]133;C;cmdline_url=ls%20-la\x07ok\r\n\x1b]133;D;0\x07");
    assert_eq!(
        terminal.take_completed_command_outputs()[0].agent_generation,
        None
    );
}

#[test]
fn ris_releases_an_active_agent_generation_and_preserves_the_event() {
    let mut terminal = TerminalState::new(24, 5);
    terminal.process_input(b"\x1b]133;A\x07$ \x1b]133;B\x07");
    terminal
        .arm_agent_execution(51, "printf '\\ec'")
        .expect("fresh empty prompt can be armed");
    terminal.process_input(
        b"printf '\\ec'\r\n\x1b]133;C;id=ris-51;cmdline_url=printf%20%27%5Cec%27\x07",
    );

    terminal.process_input(b"\x1bc");

    assert!(
        terminal.command_records().is_empty(),
        "RIS still clears history"
    );
    let completed = terminal.take_completed_command_events();
    assert_eq!(completed.len(), 1);
    assert_eq!(completed[0].completed.id, "ris-51");
    assert_eq!(completed[0].completed.command.as_deref(), Some("printf '\\ec'"));
    assert_eq!(completed[0].completed.agent_generation, Some(51));
    assert_eq!(completed[0].completed.exit_code, None);
    assert!(!completed[0].completed.output_available);
    assert_eq!(
        completed[0].completion_provenance,
        CompletionProvenance::BoundaryInferred
    );

    terminal.process_input(b"\x1b]133;A\x07$ \x1b]133;B\x07echo next\r\n\x1b]133;C\x07next");
    terminal.process_input(b"\x1b]133;D;0;id=ris-51\x07");
    assert!(terminal.running_command().is_some());
    assert!(terminal.take_completed_command_events().is_empty());
    terminal.process_input(b"\x1b]133;D;0\x07");
    let next = terminal.take_completed_command_events();
    assert_eq!(next.len(), 1);
    assert_eq!(next[0].completed.command.as_deref(), Some("echo next"));
}

#[test]
fn fresh_prompt_releases_an_agent_approval_that_never_reached_c() {
    let mut terminal = TerminalState::new(24, 5);
    terminal.process_input(b"\x1b]133;A;id=armed-61\x07$ \x1b]133;B;id=armed-61\x07");
    terminal
        .arm_agent_execution(61, "echo safe")
        .expect("fresh empty prompt can be armed");

    terminal.process_input(b"\x1b]133;A;id=next\x07$ ");

    let completed = terminal.take_completed_command_events();
    assert_eq!(completed.len(), 1);
    assert_eq!(completed[0].completed.id, "armed-61");
    assert_eq!(completed[0].completed.command.as_deref(), Some("echo safe"));
    assert_eq!(completed[0].completed.agent_generation, Some(61));
    assert!(!completed[0].start_mark_seen);
    assert!(!completed[0].is_trusted_completion());
    assert_eq!(completed[0].completed.exit_code, None);
}

#[test]
fn ris_releases_an_agent_approval_that_never_reached_c() {
    let mut terminal = TerminalState::new(24, 5);
    terminal.process_input(b"\x1b]133;A;id=armed-62\x07$ \x1b]133;B;id=armed-62\x07");
    terminal
        .arm_agent_execution(62, "echo safe")
        .expect("fresh empty prompt can be armed");

    terminal.process_input(b"\x1bc");

    let completed = terminal.take_completed_command_events();
    assert_eq!(completed.len(), 1);
    assert_eq!(completed[0].completed.id, "armed-62");
    assert_eq!(completed[0].completed.agent_generation, Some(62));
    assert!(!completed[0].start_mark_seen);
    assert!(!completed[0].is_trusted_completion());
}

#[test]
fn mismatched_c_releases_armed_agent_without_consuming_the_real_command_id() {
    let mut terminal = TerminalState::new(24, 5);
    terminal.process_input(b"\x1b]133;A;id=actual-63\x07$ \x1b]133;B;id=actual-63\x07");
    terminal
        .arm_agent_execution(63, "echo approved")
        .expect("fresh empty prompt can be armed");
    terminal
        .process_input(b"echo other\r\n\x1b]133;C;id=actual-63;cmdline_url=echo%20other\x07other");

    let abandoned = terminal.take_completed_command_events();
    assert_eq!(abandoned.len(), 1);
    assert_eq!(abandoned[0].completed.command.as_deref(), Some("echo approved"));
    assert_eq!(abandoned[0].completed.agent_generation, Some(63));
    assert!(!abandoned[0].start_mark_seen);

    terminal.process_input(b"\x1b]133;D;0;id=actual-63\x07");
    let actual = terminal.take_completed_command_events();
    assert_eq!(actual.len(), 1);
    assert_eq!(actual[0].completed.command.as_deref(), Some("echo other"));
    assert_eq!(actual[0].completed.agent_generation, None);
    assert!(actual[0].is_trusted_completion());
}

#[test]
fn agent_arm_rejects_input_before_pty_echo() {
    let mut terminal = TerminalState::new(24, 5);
    terminal.process_input(b"\x1b]133;A\x07$ \x1b]133;B\x07");
    terminal.note_user_input(b"already queued");

    assert!(terminal.arm_agent_execution(1, "echo safe").is_err());
}

#[test]
fn agent_arm_fails_closed_when_the_prompt_anchor_is_unavailable() {
    let mut terminal = TerminalState::new(24, 5);
    terminal.process_input(b"\x1b]133;A\x07$ \x1b]133;B\x07");
    terminal
        .log.records.back_mut()
        .expect("editing record")
        .command_start = None;

    assert!(terminal.arm_agent_execution(1, "echo safe").is_err());
}

#[test]
fn osc_133_truncated_command_is_never_reconstructed_as_exact() {
    let mut terminal = TerminalState::new(24, 4);
    terminal.process_input(b"\x1b]133;A\x07> \x1b]133;B\x07displayed editor text\r\n");
    terminal.process_input(
        b"\x1b]133;C;id=large;cmdline_url=unsafe-prefix;cmd_truncated=1;cwd_url=%2Ftmp\x07",
    );
    terminal.process_input(b"output\x1b]133;D;0;id=large\x07");

    let record = terminal.command_record("large").expect("semantic record");
    assert!(record.command.is_none());
    assert!(!record.command_exact);
    assert!(record.command_truncated);
    assert_eq!(record.cwd.as_deref(), Some("/tmp"));
}

#[test]
fn osc_133_truncated_flag_on_d_also_voids_the_command() {
    let mut terminal = TerminalState::new(24, 4);
    terminal.process_input(b"\x1b]133;A\x07> \x1b]133;B\x07displayed editor text\r\n");
    terminal.process_input(b"\x1b]133;C;id=late-flag;cmdline_url=unsafe-prefix\x07");
    terminal.process_input(b"output\x1b]133;D;0;id=late-flag;cmd_truncated=1\x07");

    let record = terminal
        .command_record("late-flag")
        .expect("semantic record");
    assert!(record.command.is_none());
    assert!(!record.command_exact);
    assert!(record.command_truncated);
    assert_eq!(record.exit_code, Some(0));
}

#[test]
fn osc_133_invalid_utf8_command_is_rejected_instead_of_accepting_a_prefix() {
    let mut terminal = TerminalState::new(24, 4);
    terminal.process_input(b"\x1b]133;A\x07> \x1b]133;B\x07shown command\r\n");
    terminal.process_input(b"\x1b]133;C;id=invalid-utf8;cmdline_url=echo%20safe%FFignored\x07");

    let record = terminal
        .command_record("invalid-utf8")
        .expect("semantic record");
    assert!(record.command.is_none());
    assert!(!record.command_exact);
    assert!(!record.command_truncated);
}

#[test]
fn osc_133_oversized_command_is_retained_only_as_truncated_metadata() {
    let mut terminal = TerminalState::new(24, 4);
    let oversized = "x".repeat(MAX_OSC_133_COMMAND_BYTES + 1);
    let lifecycle = format!(
        "\x1b]133;A\x07> \x1b]133;B\x07shown command\r\n\x1b]133;C;id=oversized;cmdline_url={oversized}\x07"
    );
    terminal.process_input(lifecycle.as_bytes());

    let record = terminal
        .command_record("oversized")
        .expect("semantic record");
    assert!(record.command.is_none());
    assert!(!record.command_exact);
    assert!(record.command_truncated);
}

#[test]
fn osc_133_invalid_or_oversized_ids_keep_the_terminal_local_identity() {
    let mut invalid = TerminalState::new(24, 4);
    invalid.process_input(b"\x1b]133;A\x07\x1b]133;C;id=prefix%FFsuffix\x07");
    let invalid_record = invalid.command_records().back().expect("semantic record");
    assert!(invalid_record.id.starts_with("local:"));
    assert!(invalid.command_record("prefix").is_none());

    let mut oversized = TerminalState::new(24, 4);
    let id = "i".repeat(MAX_OSC_133_ID_BYTES + 1);
    let lifecycle = format!("\x1b]133;A\x07\x1b]133;C;id={id}\x07");
    oversized.process_input(lifecycle.as_bytes());
    assert!(oversized
        .command_records().back()
        .expect("semantic record")
        .id
        .starts_with("local:"));
}

#[test]
fn osc_133_decodes_kitty_command_and_percent_encoded_jsh_id() {
    let mut terminal = TerminalState::new(24, 4);
    terminal.process_input(b"\x1b]133;A\x07> \x1b]133;B\x07");
    terminal.process_input(b"shown command\r\n");
    terminal.process_input(b"\x1b]133;C;jsh_id=jsh%3A42;cmdline_url=printf%20%27a%3Bb%2Bc%27\x07");
    terminal.process_input(b"a;b+c\x1b]133;D;exit_status=3;jsh_id=jsh%3A42\x07");

    let record = terminal.command_record("jsh:42").expect("decoded id");
    assert_eq!(record.command.as_deref(), Some("printf 'a;b+c'"));
    assert_eq!(record.exit_code, Some(3));
    assert_eq!(
        terminal
            .command_output_text("jsh:42", 1024)
            .expect("output")
            .text,
        "a;b+c"
    );
}

#[test]
fn command_output_joins_soft_wraps_and_skips_wide_continuations() {
    let mut terminal = TerminalState::new(4, 4);
    terminal.process_input(b"\x1b]133;A\x07\x1b]133;C;jsh_id=wide\x07");
    terminal.process_input("ab界c".as_bytes());
    terminal.process_input(b"\x1b]133;D;0;jsh_id=wide\x07");

    let output = terminal
        .command_output_text("wide", 1024)
        .expect("wide output");
    assert_eq!(output.text, "ab界c");
    assert_eq!(output.total_bytes, "ab界c".len());
}

#[test]
fn bounded_command_output_keeps_utf8_safe_head_and_tail() {
    let mut terminal = TerminalState::new(32, 3);
    terminal.process_input(b"\x1b]133;A\x07\x1b]133;C;jsh_id=bounded\x07");
    terminal.process_input("甲乙丙丁戊己".as_bytes());
    terminal.process_input(b"\x1b]133;D;1;jsh_id=bounded\x07");

    let output = terminal
        .command_output_text("bounded", 12)
        .expect("bounded output");
    assert_eq!(output.text, "甲乙戊己");
    assert!(output.truncated);
    assert_eq!(output.total_bytes, "甲乙丙丁戊己".len());
    assert!(output.text.len() <= 12);
}

#[test]
fn anchor_and_absolute_range_apis_preserve_soft_wrap_semantics() {
    let mut terminal = TerminalState::new(4, 3);
    terminal.process_input(b"abcde");

    let absolute = terminal
        .extract_absolute_text_range((0, 0), (1, 1), 1024)
        .expect("absolute range");
    assert_eq!(absolute.text, "abcde");

    let start = terminal.absolute_to_buffer_anchor((0, 0)).unwrap();
    let end = terminal.absolute_to_buffer_anchor((1, 1)).unwrap();
    assert_eq!(terminal.buffer_anchor_to_absolute(start), Some((0, 0)));
    assert_eq!(terminal.buffer_anchor_to_absolute(end), Some((1, 1)));
    assert_eq!(
        terminal
            .extract_text_range(start, end, 1024)
            .expect("line-id anchors")
            .text,
        "abcde"
    );
    assert_eq!(
        terminal
            .extract_text_by_line_ids(start.line_id, end.line_id, 1024)
            .expect("inclusive line-id range")
            .text,
        "abcde"
    );
}

#[test]
fn command_record_survives_output_eviction_but_anchors_report_unavailable() {
    let mut terminal = TerminalState::new(8, 2);
    terminal.set_max_scrollback(1);
    terminal.process_input(b"\x1b]133;A\x07\x1b]133;C;jsh_id=evicted\x07");
    terminal.process_input(b"one\r\ntwo\r\nthree\r\nfour\r\n");
    terminal.process_input(b"\x1b]133;D;0;jsh_id=evicted\x07");

    assert!(terminal.command_record("evicted").is_some());
    assert!(terminal.command_output_text("evicted", 1024).is_none());
    assert!(!terminal.scroll_to_command("evicted"));
    let completed = terminal.take_completed_command_outputs();
    assert_eq!(completed.len(), 1);
    assert!(!completed[0].output_available);
}

#[test]
fn completed_snapshot_keeps_output_after_later_scrollback_eviction() {
    let mut terminal = TerminalState::new(8, 2);
    terminal.set_max_scrollback(1);
    terminal.process_input(b"\x1b]133;A\x07\x1b]133;C;jsh_id=kept\x07");
    terminal.process_input(b"kept\r\n");
    terminal.process_input(b"\x1b]133;D;0;jsh_id=kept\x07");
    assert_eq!(
        terminal
            .command_output_text("kept", 1024)
            .expect("captured at D")
            .text,
        "kept\n"
    );

    terminal.process_input(b"later1\r\nlater2\r\nlater3\r\n");
    let prompt = terminal.command_record("kept").unwrap().prompt_start;
    assert!(terminal.buffer_anchor_to_absolute(prompt).is_none());
    assert_eq!(
        terminal
            .command_output_text("kept", 1024)
            .expect("snapshot survives eviction")
            .text,
        "kept\n"
    );
}

#[test]
fn clear_completed_blocks_keeps_live_records_and_monotonic_sequences() {
    let mut terminal = TerminalState::new(40, 8);
    emit_completed_block(&mut terminal, 0);
    emit_completed_block(&mut terminal, 1);
    terminal.process_input(b"\x1b]133;A\x07$ \x1b]133;B\x07draft");
    let live_sequence = terminal.command_records().back().unwrap().sequence;
    assert!(terminal.log.captured_bytes > 0);

    assert_eq!(terminal.clear_completed_blocks(), 2);

    assert_eq!(terminal.command_records().len(), 1);
    assert!(!terminal.command_records()[0].complete);
    assert_eq!(terminal.log.captured_bytes, 0);
    terminal.process_input(b"\r\n\x1b]133;C\x07new out\r\n\x1b]133;D;0\x07");
    let record = terminal.command_records().back().unwrap();
    assert!(record.complete);
    assert_eq!(record.sequence, live_sequence);
    assert_eq!(record.command.as_deref(), Some("draft"));
    terminal.process_input(b"\x1b]133;A\x07$ \x1b]133;B\x07next\r\n\x1b]133;C\x07\x1b]133;D;0\x07");
    assert!(terminal.command_records().back().unwrap().sequence > live_sequence);
}

#[test]
fn undo_clear_blocks_restores_records_in_order_ahead_of_newer_history() {
    let mut terminal = TerminalState::new(40, 8);
    emit_completed_block(&mut terminal, 0);
    emit_completed_block(&mut terminal, 1);
    let cleared_sequences: Vec<u64> = terminal
        .command_records()
        .iter()
        .map(|record| record.sequence)
        .collect();

    assert_eq!(terminal.clear_completed_blocks(), 2);
    assert!(terminal.command_records().is_empty());

    emit_completed_block(&mut terminal, 2);

    assert_eq!(terminal.undo_clear_blocks(), 2);

    let commands: Vec<Option<&str>> = terminal
        .command_records()
        .iter()
        .map(|record| record.command.as_deref())
        .collect();
    assert_eq!(commands, vec![Some("cmd-0"), Some("cmd-1"), Some("cmd-2")]);
    let restored: Vec<u64> = terminal
        .command_records()
        .iter()
        .map(|record| record.sequence)
        .collect();
    assert_eq!(&restored[..2], &cleared_sequences[..]);
    assert!(terminal.log.captured_bytes > 0);
    assert_eq!(
        terminal
            .command_records()
            .iter()
            .filter(|record| record.complete)
            .count(),
        3
    );
    assert_eq!(terminal.undo_clear_blocks(), 0);
}

#[test]
fn an_empty_clear_cannot_destroy_the_undo_stash() {
    let mut terminal = TerminalState::new(40, 8);
    emit_completed_block(&mut terminal, 0);

    assert_eq!(terminal.clear_completed_blocks(), 1);
    assert_eq!(terminal.clear_completed_blocks(), 0);
    assert_eq!(terminal.undo_clear_blocks(), 1);
    assert_eq!(terminal.command_records().len(), 1);
    assert_eq!(terminal.undo_clear_blocks(), 0);
}

#[test]
fn undo_clear_blocks_enforces_the_record_cap_oldest_first() {
    let mut terminal = TerminalState::new(40, 8);
    for index in 0..MAX_COMMAND_MARKS {
        emit_completed_block(&mut terminal, index);
    }
    assert_eq!(terminal.command_records().len(), MAX_COMMAND_MARKS);
    let oldest_survivor = terminal.command_records()[1].sequence;
    assert_eq!(terminal.clear_completed_blocks(), MAX_COMMAND_MARKS);

    emit_completed_block(&mut terminal, MAX_COMMAND_MARKS);

    assert_eq!(terminal.undo_clear_blocks(), MAX_COMMAND_MARKS - 1);
    assert_eq!(terminal.command_records().len(), MAX_COMMAND_MARKS);
    assert_eq!(terminal.command_records()[0].sequence, oldest_survivor);
    let expected_newest = format!("cmd-{}", MAX_COMMAND_MARKS);
    assert_eq!(
        terminal
            .command_records().back()
            .unwrap()
            .command
            .as_deref(),
        Some(expected_newest.as_str())
    );
}

#[test]
fn hard_reset_drops_the_undo_stash_with_the_rest_of_block_history() {
    let mut terminal = TerminalState::new(40, 8);
    emit_completed_block(&mut terminal, 0);
    assert_eq!(terminal.clear_completed_blocks(), 1);

    terminal.process_input(b"\x1bc");

    assert_eq!(terminal.undo_clear_blocks(), 0);
    assert!(terminal.command_records().is_empty());
}

#[test]
fn captured_output_cache_evicts_oldest_payloads_at_session_cap() {
    let mut terminal = TerminalState::new(8, 2);
    for sequence in 0..65 {
        let lifecycle = format!(
            "\x1b]133;A\x07\x1b]133;C;jsh_id=cache-{sequence}\x07\x1b]133;D;0;jsh_id=cache-{sequence}\x07"
        );
        terminal.process_input(lifecycle.as_bytes());
        let index = terminal.command_records().len() - 1;
        terminal.log.store_captured_command_output(
            index,
            ExtractedText {
                text: "x".repeat(MAX_COMPLETED_COMMAND_OUTPUT_BYTES),
                truncated: false,
                total_bytes: MAX_COMPLETED_COMMAND_OUTPUT_BYTES,
            },
        );
    }

    assert!(terminal.log.captured_bytes <= MAX_CAPTURED_COMMAND_OUTPUT_BYTES);
    assert!(terminal
        .command_record("cache-0")
        .expect("metadata retained")
        .captured_output
        .is_none());
    assert!(terminal
        .command_record("cache-64")
        .expect("newest record")
        .captured_output
        .is_some());
}

#[test]
fn prompt_ready_requires_b_and_ends_at_c() {
    let mut terminal = TerminalState::new(8, 3);
    terminal.process_input(b"\x1b]133;A\x07");
    assert!(!terminal.shell_is_prompt_ready());
    terminal.process_input(b"$ \x1b]133;B\x07");
    assert!(terminal.shell_is_prompt_ready());
    terminal.process_input(b"cmd\r\n\x1b]133;C\x07");
    assert!(!terminal.shell_is_prompt_ready());
    assert!(terminal.running_duration_ms().is_some());
    terminal.process_input(b"\x1b]133;D;0\x07");
    assert!(!terminal.shell_is_prompt_ready());
    assert_eq!(terminal.running_duration_ms(), None);
}

#[test]
fn jump_to_prev_command_scrolls_into_history() {
    let mut terminal = TerminalState::new(8, 3);
    terminal.process_input(b"\x1b]133;A\x07$ a\n");
    terminal.process_input(b"out1\n");
    terminal.process_input(b"\x1b]133;A\x07$ b\n");
    terminal.process_input(b"out2\n");
    terminal.process_input(b"\x1b]133;A\x07$ c\n");

    assert!(terminal.command_marks.len() >= 2);
    let scroll_before = terminal.scroll_offset;
    let jumped = terminal.jump_to_prev_command();
    assert!(jumped, "expected jump_to_prev_command to succeed");
    assert!(
        terminal.scroll_offset > scroll_before,
        "scroll_offset should advance into scrollback"
    );
}

#[test]
fn semantic_command_jump_survives_a_noop_resize() {
    let mut terminal = TerminalState::new(8, 3);
    terminal.process_input(b"\x1b]133;A\x07$ first\r\n\x1b]133;C;id=first;cmdline_url=first\x07");
    terminal.process_input(b"one\r\ntwo\r\nthree\r\n\x1b]133;D;0;id=first\x07");
    terminal.process_input(b"later-1\r\nlater-2\r\nlater-3\r\n");

    let prompt = terminal
        .command_record("first")
        .expect("semantic command")
        .prompt_start;
    let target_row = terminal
        .buffer_anchor_to_absolute(prompt)
        .expect("prompt remains in scrollback")
        .0;

    assert!(terminal.scroll_to_command("first"));
    assert!(terminal.scroll_offset > 0);
    assert_eq!(terminal.viewport_row_to_absolute(0), target_row);
    let jumped_offset = terminal.scroll_offset;

    terminal.on_resize(8, 3);

    assert_eq!(terminal.scroll_offset, jumped_offset);
    assert_eq!(terminal.viewport_row_to_absolute(0), target_row);
}

#[test]
fn command_edge_anchor_resolves_retained_top_and_bottom_rows() {
    let mut terminal = TerminalState::new(8, 6);
    terminal.process_input(
        b"\x1b]133;A\x07$ first\r\n\x1b]133;C;id=first\x07one\r\ntwo\r\n\x1b]133;D;0;id=first\x07",
    );
    terminal.process_input(b"\x1b]133;A\x07$ second\x1b]133;C;id=second\x07");
    let first_prompt = terminal.command_record("first").unwrap().prompt_start;
    let second_prompt = terminal.command_record("second").unwrap().prompt_start;
    let normalize = |anchor: BufferAnchor| {
        if anchor.column >= 8 {
            anchor.line_id.saturating_add(1)
        } else {
            anchor.line_id
        }
    };

    assert_eq!(
        terminal.command_edge_anchor("first", false),
        Some(BufferAnchor {
            line_id: normalize(first_prompt),
            column: 0,
        })
    );
    assert_eq!(
        terminal.command_edge_anchor("first", true),
        Some(BufferAnchor {
            line_id: normalize(second_prompt).saturating_sub(1),
            column: 0,
        })
    );
}

#[test]
fn block_search_output_line_anchor_counts_soft_wraps_and_fails_closed_when_trimmed() {
    let mut terminal = TerminalState::new(5, 4);
    terminal.process_input(b"\x1b]133;A\x07\x1b]133;C;id=wrapped\x07");
    terminal.process_input(b"abcdefgh\r\nsecond\r\nthird");
    terminal.process_input(b"\x1b]133;D;0;id=wrapped\x07");

    let first = terminal
        .command_output_line_anchor("wrapped", 1)
        .expect("first logical output line");
    let second = terminal
        .command_output_line_anchor("wrapped", 2)
        .expect("second logical output line");
    let first_row = terminal.buffer_anchor_to_absolute(first).unwrap().0;
    let second_row = terminal.buffer_anchor_to_absolute(second).unwrap().0;
    assert_eq!(second_row, first_row + 2, "one soft wrap stays line one");
    let continuation = terminal
        .command_output_match_anchor("wrapped", 1, 5, 8)
        .expect("match begins on the soft-wrap continuation");
    assert_eq!(
        terminal.buffer_anchor_to_absolute(continuation).unwrap().0,
        first_row + 1
    );
    let crossing = terminal
        .command_output_match_anchor("wrapped", 1, 4, 6)
        .expect("cross-wrap match starts on the first physical row");
    assert_eq!(
        terminal.buffer_anchor_to_absolute(crossing).unwrap().0,
        first_row
    );
    assert!(terminal
        .command_output_match_anchor("wrapped", 1, 5, 9)
        .is_none());
    assert!(terminal
        .command_output_match_anchor("wrapped", 1, 6, 6)
        .is_none());
    assert!(terminal.command_output_line_anchor("wrapped", 0).is_none());
    assert!(terminal.command_output_line_anchor("wrapped", 4).is_none());

    terminal.set_max_scrollback(0);
    for _ in 0..12 {
        terminal.process_input(b"later\r\n");
    }
    assert!(terminal.command_output_line_anchor("wrapped", 2).is_none());
    assert!(terminal
        .command_output_match_anchor("wrapped", 1, 0, 1)
        .is_none());
}

#[test]
fn block_search_match_anchor_rejects_a_reversed_same_row_range() {
    let mut terminal = TerminalState::new(20, 4);
    terminal.process_input(b"\x1b]133;A\x07\x1b]133;C;id=corrupt\x07abc");
    terminal.process_input(b"\x1b]133;D;0;id=corrupt\x07");
    let line_id = terminal
        .command_record("corrupt")
        .and_then(|record| record.output_start)
        .expect("output anchor")
        .line_id;
    let record = terminal
        .log.records
        .iter_mut()
        .find(|record| record.id == "corrupt")
        .expect("mutable test record");
    record.output_start = Some(BufferAnchor { line_id, column: 4 });
    record.output_end = Some(BufferAnchor { line_id, column: 2 });

    assert!(terminal
        .command_output_match_anchor("corrupt", 1, 0, 1)
        .is_none());
}

#[test]
fn jump_to_next_command_returns_to_live_view() {
    let mut terminal = TerminalState::new(8, 3);
    terminal.process_input(b"\x1b]133;A\x07a\n");
    terminal.process_input(b"out\n");
    terminal.process_input(b"\x1b]133;A\x07b\n");
    terminal.process_input(b"out\n");

    terminal.scroll(10);
    assert!(terminal.scroll_offset > 0);

    let jumped = terminal.jump_to_next_command();
    assert!(jumped);
    assert_eq!(terminal.scroll_offset, 0);
}

#[test]
fn pending_wrap_not_set_when_autowrap_disabled() {
    let mut terminal = TerminalState::new(3, 3);

    terminal.process_input(b"\x1b[?7l");
    terminal.process_input(b"abcd");

    assert_eq!(terminal.cursor_row, 0);
    assert_eq!(terminal.cursor_col, 2);
    assert_eq!(terminal.grid.rows[0].cells[2].character, 'd');
}

#[test]
fn decrc_restores_pending_wrap_so_right_prompt_does_not_drop_cursor() {
    let mut terminal = TerminalState::new(6, 3);

    terminal.process_input(b"P>");
    terminal.process_input(b"\x1b7");
    assert_eq!(terminal.cursor_row, 0);
    assert_eq!(terminal.cursor_col, 2);
    assert!(!terminal.pending_wrap);

    terminal.process_input(b"\x1b[6GR");
    assert_eq!(terminal.cursor_row, 0);
    assert_eq!(terminal.cursor_col, 5);
    assert!(terminal.pending_wrap);

    terminal.process_input(b"\x1b8");
    assert_eq!(terminal.cursor_row, 0);
    assert_eq!(terminal.cursor_col, 2);
    assert!(
        !terminal.pending_wrap,
        "DECRC must restore the Last Column Flag"
    );

    terminal.process_input(b"x");
    assert_eq!(terminal.cursor_row, 0);
    assert_eq!(terminal.cursor_col, 3);
    assert_eq!(terminal.grid.rows[0].cells[2].character, 'x');
}
