use ember_terminal::grid::RawRowId;
use ember_terminal::host::decode_osc7_cwd;
use ember_terminal::projection::DisplayPoint;
use ember_terminal::projection::HistoryProjection;
use ember_terminal::projection::ProjectedBufferAnchorLocation;
use ember_terminal::projection::ProjectedRowKind;
use ember_terminal::projection::ProjectionPolicy;
use ember_terminal::projection::ProjectionViewState;
use ember_terminal::state::TerminalState;
use ember_terminal::viewport::ProjectedViewport;

fn characters(text: &str) -> Vec<char> {
    text.chars().collect()
}

fn run(terminal: &mut TerminalState, index: usize) -> u64 {
    terminal.process_batch(
        format!(
            "\x1b]133;A\x07$ \x1b]133;B\x07cmd{index}\r\n\x1b]133;C\x07out{index}\r\nmore{index}\r\n\x1b]133;D;0\x07"
        )
        .as_bytes(),
    );
    terminal.command_records().back().unwrap().sequence
}

fn shown(view: &ProjectedViewport) -> Vec<String> {
    view.cells()
        .iter()
        .map(|row| row.iter().map(|cell| cell.character).collect())
        .collect()
}

fn character_of(terminal: &TerminalState, id: RawRowId, column: usize) -> Option<char> {
    for line in &terminal.scrollback {
        if line.raw_row_id() == id {
            return line.decompress().get(column).map(|cell| cell.character);
        }
    }
    for row in &terminal.grid.rows {
        if row.id == id {
            return row.cells.get(column).map(|cell| cell.character);
        }
    }
    None
}

/// Every cell of a view that comes from somewhere shows what is there and is
/// found again from there; every other cell of the view is blank.
fn assert_exact(terminal: &TerminalState, view: &ProjectedViewport) -> usize {
    let mut mapped = 0;
    for (row, cells) in view.cells().iter().enumerate() {
        for (column, cell) in cells.iter().enumerate() {
            let point = DisplayPoint::new(row, column);
            match view.raw_anchor_at(point) {
                Some(anchor) => {
                    mapped += 1;
                    assert!(anchor.row_id.is_tracked());
                    assert_eq!(view.display_point_for(anchor), Some(point));
                    assert_eq!(
                        character_of(terminal, anchor.row_id, anchor.column),
                        Some(cell.character)
                    );
                }
                None => assert_eq!(cell.character, ' '),
            }
        }
    }
    for span in &view.data.origins {
        assert!(span.len > 0);
        assert!(span.display_start.row < view.cells().len());
        assert!(span.display_start.column + span.len <= view.columns());
    }
    mapped
}

#[test]
fn a_batch_is_one_version() {
    let mut terminal = TerminalState::new(10, 3);
    let before = terminal.get_grid_version();
    terminal.process_batch(b"abc");
    assert_eq!(terminal.get_grid_version(), before + 1);
    terminal.process_batch(b"");
    assert_eq!(terminal.get_grid_version(), before + 2);
    terminal.process_input(b"def");
    assert_eq!(terminal.get_grid_version(), before + 3);
}

#[test]
fn paths_with_broken_escapes_are_refused() {
    for path in [
        "file:///tmp/%4",
        "file:///tmp/%",
        "file:///tmp/%zz",
        "file:///tmp/%+f",
        "file:///tmp/%4/x",
    ] {
        assert_eq!(decode_osc7_cwd(&characters(path), &None), None, "{path}");
    }
    assert_eq!(
        decode_osc7_cwd(&characters("file:///tmp/%41"), &None),
        Some("/tmp/A".to_string())
    );
}

#[test]
fn the_history_may_be_as_long_as_can_be_said() {
    let mut terminal = TerminalState::new(4, 2);
    terminal.set_max_scrollback(usize::MAX);
    for _ in 0..5 {
        terminal.process_batch(b"x\r\n");
    }
    assert_eq!(terminal.scrollback.len(), 4);
    terminal.set_max_scrollback(0);
    assert_eq!(terminal.scrollback.len(), 1);
}

#[test]
fn completed_commands_are_handed_out_with_their_output() {
    let mut terminal = TerminalState::new(10, 6);
    run(&mut terminal, 7);
    let outputs = terminal.take_completed_command_outputs();
    assert_eq!(outputs.len(), 1);
    assert!(outputs[0].output_available);
    assert_eq!(outputs[0].exit_code, Some(0));
    assert!(outputs[0].output.contains("out7"));
    assert!(terminal.take_completed_command_outputs().is_empty());
}

#[test]
fn a_document_has_at_least_one_column() {
    let mut terminal = TerminalState::new(4, 2);
    terminal.process_batch(b"ab");
    let none = terminal.identity_projection_plan(0);
    let one = terminal.identity_projection_plan(1);
    assert_eq!(none.cols, 1);
    assert_eq!(none.rows.len(), one.rows.len());
    let zone = run(&mut terminal, 1);
    let mut policy = ProjectionPolicy::new();
    policy.collapse(zone);
    if let Some(plan) = terminal.cached_collapsed_projection_plan(0, &policy) {
        assert_eq!(plan.cols, 1);
    }
}

#[test]
fn views_and_rows_lead_to_each_other() {
    let mut terminal = TerminalState::new(8, 4);
    let first = run(&mut terminal, 1);
    terminal.process_batch(b"a long line that wraps around\r\n\xe5\xa5\xbd wide\r\n");
    let second = run(&mut terminal, 2);
    let projection = HistoryProjection { revision: 1 };
    let history = terminal.scrollback.len();
    for offset in 0..=history {
        terminal.scroll_offset = offset;
        let view = terminal.projected_viewport(projection, true);
        assert!(assert_exact(&terminal, &view) > 0);
    }
    terminal.scroll_offset = 0;
    let mut policy = ProjectionPolicy::new();
    policy.collapse(first);
    policy.collapse(second);
    let mut reader = ProjectionViewState::new();
    let view = terminal.projected_viewport_with_state(projection, true, &policy, &mut reader);
    assert!(view.is_transformed());
    assert!(assert_exact(&terminal, &view) > 0);
    for offset in 0..=view.max_scroll_offset() {
        reader.set_offset(offset, &view);
        let moved =
            terminal.projected_viewport_with_state(projection, true, &policy, &mut reader);
        assert_eq!(moved.cells().len(), 4);
        assert_exact(&terminal, &moved);
    }
}

#[test]
fn an_advanced_view_is_the_one_made_anew() {
    let mut terminal = TerminalState::new(12, 4);
    let zone = run(&mut terminal, 1);
    let other = run(&mut terminal, 2);
    terminal.process_batch(b"one\r\ntwo\r\nthree\r\nfour\r\nfive\r\n");
    let projection = HistoryProjection { revision: 1 };
    let mut policy = ProjectionPolicy::new();
    policy.collapse(zone);
    let mut reader = ProjectionViewState::new();
    terminal.projected_viewport_with_state(projection, true, &policy, &mut reader);
    terminal.process_batch(b"six\r\nseven\r\n");
    let advanced = terminal.projected_viewport_with_state(projection, true, &policy, &mut reader);
    assert!(terminal
        .caches
        .plan
        .as_ref()
        .is_some_and(|cache| cache.plan.incremental_from.is_some()));
    let ids: Vec<RawRowId> = terminal.grid.rows.iter().map(|row| row.id).collect();
    let history = terminal.scrollback.len();
    let version = terminal.get_grid_version();
    policy.collapse(other);
    terminal.projected_viewport_with_state(
        projection,
        true,
        &policy,
        &mut ProjectionViewState::new(),
    );
    policy.expand(other);
    let anew = terminal.projected_viewport_with_state(
        projection,
        true,
        &policy,
        &mut ProjectionViewState::new(),
    );
    assert!(terminal
        .caches
        .plan
        .as_ref()
        .is_some_and(|cache| cache.plan.incremental_from.is_none()));
    assert_eq!(shown(&advanced), shown(&anew));
    assert_eq!(advanced.document_rows(), anew.document_rows());
    for row in 0..4 {
        for column in 0..12 {
            let point = DisplayPoint::new(row, column);
            assert_eq!(advanced.raw_anchor_at(point), anew.raw_anchor_at(point));
        }
    }
    assert_eq!(ids, terminal.grid.rows.iter().map(|row| row.id).collect::<Vec<RawRowId>>());
    assert_eq!(history, terminal.scrollback.len());
    assert_eq!(version, terminal.get_grid_version());
}

#[test]
fn changed_rows_are_listed_after_a_batch() {
    let mut terminal = TerminalState::new(5, 4);
    terminal.process_batch(b"one\r\ntwo\r\nthree");
    let mut rows = Vec::new();
    for text in ["x", "wraps over rows", "\r\n", "e\u{301}", "scrolls\r\nfar\r\naway\r\n"] {
        let before: Vec<Vec<char>> = terminal
            .grid
            .rows
            .iter()
            .map(|row| row.cells.iter().map(|cell| cell.character).collect())
            .collect();
        let version = terminal.get_grid_version();
        terminal.process_batch(text.as_bytes());
        terminal.get_dirty_rows(version, &mut rows);
        for (index, row) in terminal.grid.rows.iter().enumerate() {
            let now: Vec<char> = row.cells.iter().map(|cell| cell.character).collect();
            if now != before[index] {
                assert!(rows.contains(&index), "{text:?} row {index}");
            }
        }
    }
}

#[test]
fn undoing_a_clearing_restores_where_outputs_are() {
    let mut terminal = TerminalState::new(10, 12);
    let zones = [run(&mut terminal, 1), run(&mut terminal, 2)];
    let before: Vec<_> = zones.iter().map(|zone| terminal.finished_output_range(*zone)).collect();
    assert!(before.iter().all(|range| range.is_some()));
    let order: Vec<u64> = terminal.command_records().iter().map(|r| r.sequence).collect();
    let cleared = terminal.clear_completed_blocks();
    assert_eq!(cleared, 2);
    assert!(zones.iter().all(|zone| terminal.finished_output_range(*zone).is_none()));
    assert_eq!(terminal.undo_clear_blocks(), cleared);
    let after: Vec<_> = zones.iter().map(|zone| terminal.finished_output_range(*zone)).collect();
    assert_eq!(before, after);
    let restored: Vec<u64> = terminal.command_records().iter().map(|r| r.sequence).collect();
    assert_eq!(order, restored);
    assert_eq!(terminal.undo_clear_blocks(), 0);
    assert_eq!(terminal.command_records().len(), 2);
}

#[test]
fn what_is_revealed_is_in_the_next_view() {
    let mut terminal = TerminalState::new(10, 4);
    let first = run(&mut terminal, 1);
    let second = run(&mut terminal, 2);
    terminal.process_batch(b"a\r\nb\r\nc\r\nd\r\ne\r\n");
    let projection = HistoryProjection { revision: 1 };
    let mut policy = ProjectionPolicy::new();
    policy.collapse(first);
    let mut reader = ProjectionViewState::new();
    let total = terminal.scrollback.len() + 4;
    let mut visible = 0;
    for row in 0..total {
        let anchor = terminal.absolute_to_buffer_anchor((row, 0)).unwrap();
        let offset = terminal.scroll_offset;
        let location =
            terminal.reveal_buffer_anchor_in_projection(&policy, &mut reader, anchor);
        if let ProjectedBufferAnchorLocation::Visible { document_row } = location {
            let view =
                terminal.projected_viewport_with_state(projection, true, &policy, &mut reader);
            assert_eq!(view.document_start(), document_row.min(view.max_scroll_offset()));
            visible += 1;
        }
        assert_eq!(terminal.scroll_offset, offset);
    }
    assert!(visible > 4);
    assert!(terminal.reveal_collapsed_summary(&policy, &mut reader, first));
    let view = terminal.projected_viewport_with_state(projection, true, &policy, &mut reader);
    assert!(view.row_kinds().iter().any(|kind| match kind {
        ProjectedRowKind::CollapsedSummary { key, .. } => key.zone_id == first,
        _ => false,
    }));
    assert!(!terminal.reveal_collapsed_summary(&policy, &mut reader, second));
}

#[test]
fn a_remembered_view_is_that_of_its_key() {
    let mut terminal = TerminalState::new(6, 3);
    let projection = HistoryProjection { revision: 1 };
    terminal.process_batch(b"one\r\ntwo\r\nthree\r\nfour");
    let first = terminal.projected_viewport(projection, true);
    let again = terminal.projected_viewport(projection, true);
    assert_eq!(shown(&first), shown(&again));
    terminal.process_batch(b"!");
    let changed = terminal.projected_viewport(projection, true);
    assert_eq!(shown(&changed)[2], "four! ");
    terminal.scroll_offset = 1;
    let scrolled = terminal.projected_viewport(projection, true);
    assert_eq!(shown(&scrolled)[0], "one   ");
    assert_eq!(scrolled.document_start(), 0);
}

fn row_text(terminal: &TerminalState, row: usize) -> String {
    terminal.grid.rows[row]
        .cells
        .iter()
        .map(|cell| cell.character)
        .collect::<String>()
        .trim_end()
        .to_string()
}

fn answer(terminal: &mut TerminalState, question: &[u8]) -> String {
    terminal.process_batch(question);
    String::from_utf8(terminal.get_output()).unwrap()
}

#[test]
fn insert_mode_is_no_private_mode() {
    let mut terminal = TerminalState::new(8, 1);
    terminal.process_batch(b"abc\r\x1b[?4hX");
    assert_eq!(row_text(&terminal, 0), "Xbc");
    assert_eq!(answer(&mut terminal, b"\x1b[?4$p"), "\x1b[?4;0$y");
    terminal.process_batch(b"\x1b[4h\rY");
    assert_eq!(row_text(&terminal, 0), "YXbc");
    assert_eq!(answer(&mut terminal, b"\x1b[?4$p"), "\x1b[?4;0$y");
    terminal.process_batch(b"\x1b[?4l\rZ");
    assert_eq!(row_text(&terminal, 0), "ZYXbc");
    terminal.process_batch(b"\x1b[4l\rw");
    assert_eq!(row_text(&terminal, 0), "wYXbc");
}

#[test]
fn origin_mode_is_a_private_mode() {
    let mut terminal = TerminalState::new(8, 4);
    assert_eq!(answer(&mut terminal, b"\x1b[?6$p"), "\x1b[?6;2$y");
    assert_eq!(answer(&mut terminal, b"\x1b[2;3r\x1b[?6h\x1b[?6$p"), "\x1b[?6;1$y");
    assert_eq!(terminal.get_cursor_pos(), (1, 0));
    terminal.process_batch(b"\x1b[6l\x1b[9;1H");
    assert_eq!(terminal.get_cursor_pos(), (2, 0));
    assert_eq!(answer(&mut terminal, b"\x1b[?6l\x1b[?6$p"), "\x1b[?6;2$y");
    assert_eq!(terminal.get_cursor_pos(), (0, 0));
}

#[test]
fn a_wider_screen_keeps_what_one_column_showed() {
    let mut terminal = TerminalState::new(1, 1);
    terminal.process_batch("界".as_bytes());
    assert_eq!(terminal.grid.rows[0].cells[0].character, '界');
    terminal.on_resize(3, 1);
    assert_eq!(row_text(&terminal, 0), "界");
    assert!(terminal.grid.rows[0].cells[0].flags.wide());
    assert!(!terminal.grid.rows[0].cells[1].flags.wide_continuation());
}

#[test]
fn a_narrower_screen_keeps_no_half_of_a_character() {
    let mut terminal = TerminalState::new(4, 1);
    terminal.process_batch("ab界".as_bytes());
    terminal.on_resize(3, 1);
    assert_eq!(row_text(&terminal, 0), "ab");
    assert!(!terminal.grid.rows[0].cells[2].flags.wide());
}

#[test]
fn clearing_a_cell_clears_both_halves() {
    for column in [1, 2] {
        let mut terminal = TerminalState::new(5, 1);
        terminal.process_batch("a界bc".as_bytes());
        let version = terminal.get_grid_version();
        terminal.clear_cell_unchecked(0, column);
        assert_eq!(row_text(&terminal, 0), "a  bc");
        assert!(terminal.grid.rows[0].cells.iter().all(|cell| !cell.flags.wide()));
        assert!(terminal.grid.rows[0].cells.iter().all(|cell| !cell.flags.wide_continuation()));
        assert_eq!(terminal.get_grid_version(), version);
    }
}

#[test]
fn rows_that_a_pending_sequence_changes_are_listed() {
    let pairs: [(&[u8], &[u8]); 12] = [
        (b"\x1b[", b"2J"),
        (b"\x1b[2;1H\x1b[1", b"L"),
        (b"\x1b[H\x1b[", b"M"),
        (b"\x1b[H\x1b", b"M"),
        (b"\x1b[4;1H\x1b", b"D"),
        (b"\x1b[H\x1b[2", b"P"),
        (b"\x1b[3", b"@"),
        (b"q\x1b[4", b"b"),
        (b"\x1b[?1049", b"h"),
        (b"\x1b[?1049", b"lback"),
        (b"\x1b]0;title", b"\x07typed"),
        (b"\x1b[?2026h\x1b[?202", b"6l"),
    ];
    let mut rows = Vec::new();
    let mut changes = 0;
    for (head, tail) in pairs {
        let mut terminal = TerminalState::new(5, 4);
        terminal.process_batch(b"one\r\ntwo\r\nthree\r\nfour");
        if tail == b"lback" {
            terminal.process_batch(b"\x1b[?1049h");
        }
        terminal.process_batch(head);
        let before: Vec<String> = (0..4).map(|row| row_text(&terminal, row)).collect();
        let version = terminal.get_grid_version();
        terminal.process_batch(tail);
        assert_eq!(terminal.get_grid_version(), version + 1);
        terminal.get_dirty_rows(version, &mut rows);
        for row in 0..4 {
            if row_text(&terminal, row) != before[row] {
                changes += 1;
                assert!(rows.contains(&row), "{head:?} {tail:?} row {row}");
            }
        }
    }
    assert!(changes > 20);
    let mut terminal = TerminalState::new(5, 4);
    terminal.process_batch(b"one");
    terminal.process_batch(b"\x1b");
    terminal.process_batch(b"c");
    assert_eq!(terminal.get_grid_version(), 1);
}

#[test]
fn folding_an_output_again_gives_the_same_view() {
    let mut terminal = TerminalState::new(12, 4);
    let zone = run(&mut terminal, 1);
    terminal.process_batch(b"one\r\ntwo\r\nthree\r\nfour\r\n");
    let projection = HistoryProjection { revision: 1 };
    let mut policy = ProjectionPolicy::new();
    policy.collapse(zone);
    let mut reader = ProjectionViewState::new();
    terminal.projected_viewport_with_state(projection, true, &policy, &mut reader);
    terminal.process_batch(b"five\r\nsix\r\n");
    let first = terminal.projected_viewport_with_state(projection, true, &policy, &mut reader);
    assert!(terminal
        .caches
        .plan
        .as_ref()
        .is_some_and(|cache| cache.plan.incremental_from.is_some()));
    let before = policy.revision;
    policy.expand(zone);
    policy.collapse(zone);
    assert!(policy.revision > before);
    let ids: Vec<RawRowId> = terminal.grid.rows.iter().map(|row| row.id).collect();
    let version = terminal.get_grid_version();
    let second = terminal.projected_viewport_with_state(
        projection,
        true,
        &policy,
        &mut ProjectionViewState::new(),
    );
    assert!(terminal
        .caches
        .plan
        .as_ref()
        .is_some_and(|cache| cache.plan.incremental_from.is_none()));
    assert_eq!(shown(&first), shown(&second));
    assert_eq!(first.document_rows(), second.document_rows());
    for row in 0..4 {
        for column in 0..12 {
            let point = DisplayPoint::new(row, column);
            assert_eq!(first.raw_anchor_at(point), second.raw_anchor_at(point));
        }
        match (&first.row_kinds()[row], &second.row_kinds()[row]) {
            (
                ProjectedRowKind::CollapsedSummary { key: a, hidden_range: x, hidden_rows: m },
                ProjectedRowKind::CollapsedSummary { key: b, hidden_range: y, hidden_rows: n },
            ) => {
                assert_eq!(a.zone_id, b.zone_id);
                assert_eq!(a.policy_revision, before);
                assert_eq!(b.policy_revision, policy.revision);
                assert_eq!((x, m), (y, n));
            }
            (a, b) => assert_eq!(a, b),
        }
    }
    assert_eq!(ids, terminal.grid.rows.iter().map(|row| row.id).collect::<Vec<RawRowId>>());
    assert_eq!(version, terminal.get_grid_version());
}

#[test]
fn undoing_a_clearing_keeps_the_open_command_last() {
    let mut terminal = TerminalState::new(10, 12);
    run(&mut terminal, 1);
    run(&mut terminal, 2);
    terminal.process_batch(b"\x1b]133;A\x07$ \x1b]133;B\x07open");
    let order: Vec<u64> = terminal.command_records().iter().map(|r| r.sequence).collect();
    assert_eq!(order.len(), 3);
    assert_eq!(terminal.clear_completed_blocks(), 2);
    assert_eq!(terminal.command_records().len(), 1);
    assert_eq!(terminal.undo_clear_blocks(), 2);
    let restored: Vec<u64> = terminal.command_records().iter().map(|r| r.sequence).collect();
    assert_eq!(order, restored);
    let open: Vec<bool> = terminal.command_records().iter().map(|r| !r.complete).collect();
    assert_eq!(open, [false, false, true]);
    assert_eq!(terminal.undo_clear_blocks(), 0);
}

#[test]
fn only_the_newest_command_can_be_open() {
    let mut terminal = TerminalState::new(10, 12);
    terminal.process_batch(b"\x1b]133;A\x07$ \x1b]133;B\x07one\r\n\x1b]133;C\x07never ended\r\n");
    terminal.process_batch(b"\x1b]133;A\x07$ \x1b]133;B\x07two");
    let open: Vec<bool> = terminal.command_records().iter().map(|r| !r.complete).collect();
    assert_eq!(open, [false, true]);
}

#[test]
fn a_revealed_summary_is_shown_when_changes_are_not_counted() {
    let mut terminal = TerminalState::new(10, 4);
    let zone = run(&mut terminal, 1);
    terminal.process_batch(b"a\r\nb\r\nc\r\nd\r\ne\r\n");
    terminal.provenance.revision = 0;
    let projection = HistoryProjection { revision: 1 };
    let mut policy = ProjectionPolicy::new();
    policy.collapse(zone);
    let mut reader = ProjectionViewState::new();
    assert!(terminal.reveal_collapsed_summary(&policy, &mut reader, zone));
    let numbers = terminal.caches.next_plan_revision;
    let view = terminal.projected_viewport_with_state(projection, true, &policy, &mut reader);
    assert_eq!(terminal.caches.next_plan_revision, numbers + 1);
    assert!(view.row_kinds().iter().any(|kind| match kind {
        ProjectedRowKind::CollapsedSummary { key, .. } => key.zone_id == zone,
        _ => false,
    }));
}

#[test]
fn input_only_feeds_the_history() {
    let mut terminal = TerminalState::new(6, 2);
    terminal.set_max_scrollback(6);
    terminal.process_batch(b"a\r\nb\r\nc\r\nd");
    let inputs: [&[u8]; 6] = [
        b"\x1b[31mred\x1b[0m\r\nmore\r\n",
        b"\x1b[2",
        b"J\x1b[H\x1b[2S",
        b"\x1b[?2026hframe\r\nby\r\nframe\x1b[?2026l",
        b"\x1b[?1049hother\r\nscreen\r\nhere\x1b[?1049l",
        b"\x1b[3Jlast\r\nlines\r\n",
    ];
    for input in inputs {
        let before: Vec<u64> = terminal.scrollback.iter().map(|line| line.row_id.raw).collect();
        let total = terminal.total_lines_scrolled;
        terminal.process_batch(input);
        let after: Vec<u64> = terminal.scrollback.iter().map(|line| line.row_id.raw).collect();
        let fresh = (terminal.total_lines_scrolled - total) as usize;
        let stay = after.len() - fresh.min(after.len());
        assert!(before.ends_with(&after[..stay]), "{input:?}");
        assert!(after[stay..].iter().all(|id| !before.contains(id)), "{input:?}");
    }
}
