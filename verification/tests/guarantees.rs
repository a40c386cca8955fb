use ember_terminal::cell::{Color, TerminalCell};
use ember_terminal::click::{InputSpan, ScreenCell};
use ember_terminal::document::RawCellAnchor;
use ember_terminal::grid::RawRowId;
use ember_terminal::plan::ProjectionPlan;
use ember_terminal::projection::HistoryProjection;
use ember_terminal::projection::ProjectedBufferAnchorLocation;
use ember_terminal::projection::ProjectedRowKind;
use ember_terminal::projection::ProjectionPolicy;
use ember_terminal::projection::ProjectionViewState;
use ember_terminal::provenance::BufferAnchor;
use ember_terminal::state::TerminalState;

fn screen_text(terminal: &TerminalState) -> Vec<String> {
    terminal
        .grid
        .rows
        .iter()
        .map(|row| row.cells.iter().map(|cell| cell.character).collect())
        .collect()
}

fn emit(terminal: &mut TerminalState, index: usize) -> u64 {
    terminal.process_input(
        format!(
            "\x1b]133;A\x07$ \x1b]133;B\x07cmd{index}\r\n\x1b]133;C\x07out{index}\r\nmore{index}\r\n\x1b]133;D;0\x07"
        )
        .as_bytes(),
    );
    terminal.command_records().back().unwrap().sequence
}

fn plan_text(terminal: &TerminalState, plan: &ProjectionPlan) -> Vec<String> {
    terminal
        .materialize_projection_plan(plan, 0, plan.rows.len())
        .cells
        .iter()
        .map(|row| {
            row.iter()
                .map(|cell| cell.character)
                .collect::<String>()
                .trim_end()
                .to_string()
        })
        .collect()
}

fn summaries(plan: &ProjectionPlan) -> Vec<u64> {
    plan.rows
        .iter()
        .filter_map(|row| match row.kind {
            ProjectedRowKind::CollapsedSummary { key, .. } => Some(key.zone_id),
            _ => None,
        })
        .collect()
}

#[test]
fn folding_two_outputs_hides_both_and_nothing_else() {
    let mut terminal = TerminalState::new(10, 12);
    let first = emit(&mut terminal, 1);
    let second = emit(&mut terminal, 2);
    let mut policy = ProjectionPolicy::new();
    policy.collapse(second);
    policy.collapse(first);
    let plan = terminal
        .cached_collapsed_projection_plan(10, &policy)
        .unwrap();
    let plain = terminal.identity_projection_plan(10);
    let kept: Vec<String> = plan_text(&terminal, &plan)
        .into_iter()
        .filter(|line| !line.is_empty())
        .collect();
    let all: Vec<String> = plan_text(&terminal, &plain)
        .into_iter()
        .filter(|line| !line.is_empty())
        .collect();
    assert_eq!(all, ["$ cmd1", "out1", "more1", "$ cmd2", "out2", "more2"]);
    assert_eq!(kept, ["$ cmd1", "$ cmd2"]);
    assert_eq!(summaries(&plan), [first, second]);
    assert_eq!(summaries(&plain), Vec::<u64>::new());
    assert_eq!(plan.effective_collapsed, vec![first, second]);
}

#[test]
fn a_position_in_a_folded_output_leads_to_its_summary() {
    let mut terminal = TerminalState::new(10, 12);
    let first = emit(&mut terminal, 1);
    let second = emit(&mut terminal, 2);
    let mut policy = ProjectionPolicy::new();
    policy.collapse(first);
    policy.collapse(second);
    let mut view = ProjectionViewState::new();
    let hidden = terminal.absolute_to_buffer_anchor((4, 0)).unwrap();
    assert_eq!(
        terminal.reveal_buffer_anchor_in_projection(&policy, &mut view, hidden),
        ProjectedBufferAnchorLocation::Hidden { zone_id: second }
    );
    let visible = terminal.absolute_to_buffer_anchor((3, 2)).unwrap();
    assert_eq!(
        terminal.reveal_buffer_anchor_in_projection(&policy, &mut view, visible),
        ProjectedBufferAnchorLocation::Visible { document_row: 2 }
    );
}

#[test]
fn an_advanced_document_is_the_one_made_anew() {
    let mut streamed = TerminalState::new(12, 4);
    let mut rebuilt = TerminalState::new(12, 4);
    let zone = emit(&mut streamed, 1);
    emit(&mut rebuilt, 1);
    let filler: Vec<u8> = (0..6).flat_map(|n| format!("line {n}\r\n").into_bytes()).collect();
    streamed.process_input(&filler);
    rebuilt.process_input(&filler);
    let mut policy = ProjectionPolicy::new();
    policy.collapse(zone);
    streamed.cached_collapsed_projection_plan(12, &policy).unwrap();
    let tail: &[u8] = b"tail one\r\ntail two\r\ntail three\r\n";
    streamed.process_input(tail);
    rebuilt.process_input(tail);
    let advanced = streamed.cached_collapsed_projection_plan(12, &policy).unwrap();
    let anew = rebuilt.cached_collapsed_projection_plan(12, &policy).unwrap();
    assert!(advanced.incremental_from.is_some());
    assert!(anew.incremental_from.is_none());
    assert_eq!(advanced.incremental_appended_rows, 3);
    assert_eq!(plan_text(&streamed, &advanced), plan_text(&rebuilt, &anew));
    assert_eq!(summaries(&advanced), summaries(&anew));
    assert_eq!(advanced.first_line, anew.first_line);
    assert_eq!(advanced.history_ids, anew.history_ids);
    assert_eq!(advanced.history_wraps, anew.history_wraps);
}

#[test]
fn a_document_is_made_anew_when_a_continued_line_loses_its_start() {
    let mut terminal = TerminalState::new(6, 2);
    terminal.set_max_scrollback(5);
    terminal.process_input(b"abcdefghij\r\n");
    let zone = emit(&mut terminal, 1);
    let mut policy = ProjectionPolicy::new();
    policy.collapse(zone);
    let before = terminal.cached_collapsed_projection_plan(6, &policy);
    terminal.process_input(b"x\r\ny\r\n");
    let after = terminal.cached_collapsed_projection_plan(6, &policy);
    if let (Some(before), Some(after)) = (before, after) {
        assert_eq!(before.history_wraps.first(), Some(&true));
        assert!(after.history_wraps.first() != Some(&true) || after.incremental_from.is_none());
    }
}

#[test]
fn a_saved_cursor_comes_back_as_it_was() {
    let mut terminal = TerminalState::new(10, 4);
    terminal.process_input(b"\x1b[2;3H\x1b[31m\x1b7\x1b[4;9H\x1b[0m\x1b8X");
    assert_eq!(terminal.grid.rows[1].cells[2].character, 'X');
    assert_eq!(terminal.grid.rows[1].cells[2].foreground, Color::Red);
}

#[test]
fn the_alternate_screen_leaves_no_trace() {
    let mut terminal = TerminalState::new(8, 3);
    terminal.process_input(b"one\r\ntwo\x1b[32m");
    let before = screen_text(&terminal);
    let cursor = terminal.get_cursor_pos();
    terminal.process_input(b"\x1b[?1049h\x1b[H\x1b[41mfull screen\x1b[2J");
    assert_ne!(screen_text(&terminal), before);
    terminal.process_input(b"\x1b[?1049l");
    assert_eq!(screen_text(&terminal), before);
    assert_eq!(terminal.get_cursor_pos(), cursor);
    assert_eq!(terminal.current_fg, Color::Green);
    assert_eq!(terminal.current_bg, Color::Default);
}

#[test]
fn anchors_survive_until_their_row_is_gone() {
    let mut terminal = TerminalState::new(6, 2);
    terminal.set_max_scrollback(2);
    terminal.process_input(b"a\r\nb");
    let anchor = terminal.absolute_to_buffer_anchor((1, 0)).unwrap();
    assert_eq!(anchor, BufferAnchor { line_id: 1, column: 0 });
    terminal.process_input(b"\r\nc\r\nd");
    assert_eq!(terminal.buffer_anchor_to_absolute(anchor), Some((1, 0)));
    terminal.process_input(b"\r\ne\r\nf");
    assert_eq!(terminal.buffer_anchor_to_absolute(anchor), None);
}

#[test]
fn a_cell_and_its_position_lead_to_each_other() {
    let mut terminal = TerminalState::new(6, 2);
    terminal.process_input(b"a\r\nb\r\nc");
    let row_id = terminal.raw_row_id_at_absolute(0).unwrap();
    let cell = RawCellAnchor { row_id, column: 6 };
    let position = terminal.raw_cell_anchor_to_buffer_anchor(cell).unwrap();
    assert_eq!(position, BufferAnchor { line_id: 0, column: 6 });
    assert_eq!(terminal.buffer_anchor_to_absolute(position), Some((0, 6)));
    let beyond = RawCellAnchor { row_id, column: 7 };
    assert_eq!(terminal.raw_cell_anchor_to_buffer_anchor(beyond), None);
    let untracked = RawCellAnchor { row_id: RawRowId::untracked(), column: 0 };
    assert_eq!(terminal.raw_cell_anchor_to_buffer_anchor(untracked), None);
}

#[test]
fn input_may_be_cut_anywhere_in_a_sequence() {
    let input: &[u8] = b"a\x1b[1;31mb\x1b]0;title\x1b\\\x1b(0q\x1b(B\r\n\xe5\xa5\xbd!\x1b[2Dx";
    let mut whole = TerminalState::new(12, 3);
    whole.process_input(input);
    for cut in 0..=input.len() {
        let mut parts = TerminalState::new(12, 3);
        parts.process_input(&input[..cut]);
        parts.process_input(&input[cut..]);
        assert_eq!(screen_text(&parts), screen_text(&whole), "cut at {cut}");
        assert_eq!(parts.get_cursor_pos(), whole.get_cursor_pos(), "cut at {cut}");
        assert_eq!(parts.host.window_title, whole.host.window_title, "cut at {cut}");
    }
}

#[test]
fn a_reader_keeps_their_place_while_the_history_grows() {
    let mut terminal = TerminalState::new(6, 2);
    for n in 0..6 {
        terminal.process_input(format!("l{n}\r\n").as_bytes());
    }
    terminal.scroll(2);
    let top = terminal.viewport_top_line_id();
    let seen = terminal.get_visible_cells()[0][1].character;
    terminal.process_input(b"more\r\nlines\r\n");
    assert_eq!(terminal.viewport_top_line_id(), top);
    assert_eq!(terminal.get_visible_cells()[0][1].character, seen);
    terminal.scroll_to_bottom();
    terminal.process_input(b"end\r\n");
    assert_eq!(terminal.scroll_offset, 0);
}

#[test]
fn the_history_loses_at_most_its_oldest_row() {
    let mut terminal = TerminalState::new(4, 1);
    terminal.set_max_scrollback(2);
    terminal.process_input(b"a\r\nb\r\nc");
    let before: Vec<u64> = terminal.scrollback.iter().map(|line| line.row_id.raw).collect();
    terminal.process_input(b"\r\n");
    let after: Vec<u64> = terminal.scrollback.iter().map(|line| line.row_id.raw).collect();
    assert_eq!(before.len(), 2);
    assert_eq!(after.len(), 2);
    assert_eq!(after[0], before[1]);
}

#[test]
fn fresh_rows_get_identities_of_their_own() {
    let mut terminal = TerminalState::new(4, 2);
    terminal.process_input(b"a\r\nb\r\nc\r\nd\x1b[L\x1b[?1049hx\x1b[?1049l");
    let mut ids: Vec<u64> = terminal.grid.rows.iter().map(|row| row.id.raw).collect();
    ids.extend(terminal.alt_grid.rows.iter().map(|row| row.id.raw));
    ids.extend(terminal.scrollback.iter().map(|line| line.row_id.raw));
    assert!(ids.iter().all(|id| *id < terminal.next_raw_row_id));
    let total = ids.len();
    ids.sort();
    ids.dedup();
    assert_eq!(ids.len(), total);
}

#[test]
fn a_reset_reuses_neither_identities_nor_numbers() {
    let mut terminal = TerminalState::new(8, 2);
    let last = emit(&mut terminal, 1);
    let next = terminal.next_raw_row_id;
    terminal.process_input(b"\x1bc");
    assert!(terminal.grid.rows.iter().all(|row| row.id.raw >= next));
    assert!(terminal.command_records().is_empty());
    assert!(emit(&mut terminal, 2) > last);
}

#[test]
fn numbers_of_cleared_commands_are_not_given_again() {
    let mut terminal = TerminalState::new(12, 6);
    let first = emit(&mut terminal, 1);
    let second = emit(&mut terminal, 2);
    assert_eq!(terminal.clear_completed_blocks(), 2);
    let third = emit(&mut terminal, 3);
    assert!(first < second && second < third);
    assert_eq!(terminal.undo_clear_blocks(), 2);
    let numbers: Vec<u64> = terminal
        .command_records()
        .iter()
        .map(|record| record.sequence)
        .collect();
    assert_eq!(numbers, [first, second, third]);
}

#[test]
fn looking_at_a_terminal_changes_nothing_in_it() {
    let mut terminal = TerminalState::new(10, 6);
    let zone = emit(&mut terminal, 1);
    let screen = screen_text(&terminal);
    let version = terminal.grid_version;
    let cursor = terminal.get_cursor_pos();
    let numbers: Vec<u64> = terminal.command_records().iter().map(|record| record.sequence).collect();
    let mut policy = ProjectionPolicy::new();
    policy.collapse(zone);
    let mut view = ProjectionViewState::new();
    for block_mode in [true, false, true] {
        terminal.projected_viewport_with_state(
            HistoryProjection::identity(),
            block_mode,
            &policy,
            &mut view,
        );
    }
    assert_eq!(screen_text(&terminal), screen);
    assert_eq!(terminal.grid_version, version);
    assert_eq!(terminal.get_cursor_pos(), cursor);
    let after: Vec<u64> = terminal.command_records().iter().map(|record| record.sequence).collect();
    assert_eq!(after, numbers);
    assert_eq!(terminal.finished_output_range(zone).map(|range| range.zone_id), Some(zone));
}

#[test]
fn only_one_kind_of_selection_is_in_place() {
    let mut terminal = TerminalState::new(10, 8);
    let zone = emit(&mut terminal, 1);
    terminal.start_selection((0, 0));
    terminal.update_selection((0, 3));
    assert!(terminal.selection.is_some());
    let mut policy = ProjectionPolicy::new();
    policy.collapse(zone);
    let mut view = ProjectionViewState::new();
    let folded = terminal.projected_viewport_with_state(
        HistoryProjection::identity(),
        true,
        &policy,
        &mut view,
    );
    assert!(folded.is_transformed());
    assert!(terminal.selection.is_none());
    let row = (0..folded.rows())
        .find(|row| matches!(folded.row_kind(*row), Some(ProjectedRowKind::Raw)) && folded.row_has_origin(*row))
        .unwrap();
    terminal.select_line_at_projected(&folded, row);
    assert!(terminal.projected_selection.is_some());
    terminal.start_selection((0, 0));
    assert!(terminal.projected_selection.is_none());
    assert!(terminal.selection.is_some());
}

#[test]
fn both_directions_of_a_selection_are_the_same() {
    let mut terminal = TerminalState::new(10, 3);
    terminal.process_input(b"hello\r\nworld");
    terminal.start_selection((0, 2));
    terminal.update_selection((1, 3));
    let forward = terminal.copy_selection();
    let revision = terminal.selection_revision();
    terminal.start_selection((1, 3));
    terminal.update_selection((0, 2));
    assert_eq!(terminal.copy_selection(), forward);
    assert_eq!(forward.as_deref(), Some("llo     \nworl"));
    assert_ne!(terminal.selection_revision(), revision);
    assert_ne!(terminal.selection_revision(), 0);
}

#[test]
fn a_rectangle_covers_the_same_columns_on_every_row() {
    let mut terminal = TerminalState::new(10, 3);
    terminal.process_input(b"abcdef\r\nghijkl\r\nmnopqr");
    terminal.start_block_selection((0, 4));
    terminal.update_selection((2, 1));
    for row in 0..3 {
        assert_eq!(terminal.row_selection_cols(row), Some((1, 4)));
    }
}

#[test]
fn expanding_undoes_collapsing() {
    let mut policy = ProjectionPolicy::new();
    assert!(policy.is_identity());
    assert!(policy.collapse(3));
    assert!(policy.collapse(1));
    assert!(!policy.collapse(3));
    assert_eq!(policy.collapsed, vec![1, 3]);
    assert!(policy.expand(3));
    assert!(!policy.expand(3));
    assert_eq!(policy.collapsed, vec![1]);
    assert!(policy.expand(1));
    assert!(policy.is_identity());
}

#[test]
fn a_mode_is_switched_alone() {
    let mut terminal = TerminalState::new(4, 2);
    terminal.process_input(b"\x1b[?2004h\x1b[?1h");
    assert!(terminal.is_bracketed_paste_enabled());
    assert!(terminal.is_application_cursor_keys());
    terminal.process_input(b"\x1b[?1l");
    assert!(terminal.is_bracketed_paste_enabled());
    assert!(!terminal.is_application_cursor_keys());
    terminal.process_input(b"\x1b[?9999h");
    assert!(terminal.is_bracketed_paste_enabled());
}

#[test]
fn a_pushed_title_comes_back() {
    let mut terminal = TerminalState::new(8, 2);
    terminal.process_input(b"\x1b]2;first\x07\x1b[22;2t\x1b]2;second\x07");
    assert_eq!(terminal.host.window_title, "second");
    terminal.process_input(b"\x1b[23;2t");
    assert_eq!(terminal.host.window_title, "first");
}

#[test]
fn reflow_keeps_every_cell_of_a_line() {
    let mut terminal = TerminalState::new(4, 1);
    terminal.process_input(b"abcdefghij\r\nz\r\n");
    for cols in 1..12 {
        let rows = TerminalState::reflow_lines(
            &terminal.scrollback,
            cols,
            &TerminalCell::default(),
        );
        let mut lines: Vec<String> = vec![String::new()];
        for row in rows.iter() {
            let text: String = row.cells.iter().map(|cell| cell.character).collect();
            lines.last_mut().unwrap().push_str(&text);
            if !row.is_wrapped {
                lines.push(String::new());
            }
        }
        let trimmed: Vec<&str> = lines.iter().map(|line| line.trim_end()).collect();
        assert_eq!(trimmed, ["abcdefghij", "z", ""], "{cols} columns");
    }
}

#[test]
fn views_follow_the_screen_and_the_scroll_position() {
    let mut terminal = TerminalState::new(4, 1);
    terminal.process_input(b"a\r\nb");
    assert_eq!(terminal.get_visible_cells()[0][0].character, 'b');
    terminal.scroll(1);
    assert_eq!(terminal.get_visible_cells()[0][0].character, 'a');
    terminal.scroll(-1);
    assert_eq!(terminal.get_visible_cells()[0][0].character, 'b');
    terminal.process_input(b"\rc");
    assert_eq!(terminal.get_visible_cells()[0][0].character, 'c');
}

#[test]
fn a_click_goes_no_further_than_the_line() {
    let span = InputSpan {
        start: ScreenCell { row: 1, col: 0 },
        end: ScreenCell { row: 2, col: 4 },
    };
    let inside = ScreenCell { row: 1, col: 7 };
    assert_eq!(span.target_cell(inside), inside);
    assert_eq!(span.target_cell(ScreenCell { row: 2, col: 9 }), span.end);
    assert_eq!(span.target_cell(ScreenCell { row: 0, col: 9 }), span.start);
}

#[test]
fn a_click_on_a_right_half_stops_behind_its_character() {
    let mut terminal = TerminalState::new(16, 2);
    terminal.process_input("$ 好的x".as_bytes());
    assert_eq!(terminal.get_cursor_pos(), (0, 7));
    assert_eq!(terminal.click_cursor_move(0, 5, true), b"\x1b[D".repeat(1));
    assert_eq!(terminal.click_cursor_move(0, 4, true), b"\x1b[D".repeat(2));
}

#[test]
fn a_printed_character_stands_where_the_cursor_was() {
    let mut terminal = TerminalState::new(6, 3);
    terminal.process_input(b"abc\x1b[1;2H\x1b[35mX");
    let row = &terminal.grid.rows[0].cells;
    assert_eq!(row[0].character, 'a');
    assert_eq!(row[1].character, 'X');
    assert_eq!(row[1].foreground, Color::Magenta);
    assert_eq!(row[2].character, 'c');
    assert_eq!(terminal.get_cursor_pos(), (0, 2));
}

#[test]
fn a_row_that_scrolls_off_the_top_is_kept() {
    let mut terminal = TerminalState::new(6, 2);
    terminal.process_input(b"one\r\ntwo");
    let id = terminal.grid.row_id(0);
    let below = terminal.grid.row_id(1);
    terminal.process_input(b"\r\nthree");
    let kept = terminal.scrollback.back().unwrap();
    assert_eq!(kept.row_id, id);
    let text: String = kept.cells.iter().map(|cell| cell.character).collect();
    assert_eq!(text.trim_end(), "one");
    assert_eq!(terminal.grid.row_id(0), below);
}
