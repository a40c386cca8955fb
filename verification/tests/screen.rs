use ember_terminal::cell::ATTR_BOLD;
use ember_terminal::cell::Color;
use ember_terminal::cell::TerminalCell;
use ember_terminal::history::ScrollbackLine;
use ember_terminal::host::decode_osc7_cwd;
use ember_terminal::state::TerminalState;
use std::collections::VecDeque;

fn assert_cell_grids_equal(
    actual: &[Vec<TerminalCell>],
    expected: &[Vec<TerminalCell>],
    context: &str,
) {
    assert_eq!(actual.len(), expected.len(), "{context}: row count");
    for (row_index, (actual_row, expected_row)) in actual.iter().zip(expected).enumerate() {
        assert_eq!(
            actual_row.len(),
            expected_row.len(),
            "{context}: column count at row {row_index}"
        );
        for (column_index, (actual_cell, expected_cell)) in
            actual_row.iter().zip(expected_row).enumerate()
        {
            assert_eq!(
                actual_cell.character, expected_cell.character,
                "{context}: character at ({row_index}, {column_index})"
            );
            assert_eq!(
                actual_cell.foreground, expected_cell.foreground,
                "{context}: foreground at ({row_index}, {column_index})"
            );
            assert_eq!(
                actual_cell.background, expected_cell.background,
                "{context}: background at ({row_index}, {column_index})"
            );
            assert_eq!(
                actual_cell.flags, expected_cell.flags,
                "{context}: flags at ({row_index}, {column_index})"
            );
            assert_eq!(
                actual_cell.hyperlink_id, expected_cell.hyperlink_id,
                "{context}: hyperlink at ({row_index}, {column_index})"
            );
        }
    }
}

fn text_line(text: &str, cols: usize, wrapped: bool) -> ScrollbackLine {
    let mut cells = vec![TerminalCell::default(); cols];
    for (cell, ch) in cells.iter_mut().zip(text.chars()) {
        cell.character = ch;
    }
    ScrollbackLine::compress(&cells, wrapped)
}

fn legacy_reflowed_visible_cells(terminal: &TerminalState) -> Vec<Vec<TerminalCell>> {
    let rows = terminal.grid.rows();
    let cols = terminal.grid.row_len();
    let blank_cell = terminal.create_blank_cell();
    let mut start_idx = terminal
        .scrollback
        .len()
        .saturating_sub(terminal.scroll_offset + rows);
    while start_idx > 0 && terminal.scrollback[start_idx - 1].is_wrapped {
        start_idx -= 1;
    }

    let copied_tail: VecDeque<ScrollbackLine> = terminal
        .scrollback
        .iter()
        .skip(start_idx)
        .map(copied_line)
        .collect();
    let reflowed = TerminalState::reflow_lines(&copied_tail, cols, &blank_cell);
    let skip = reflowed.len().saturating_sub(terminal.scroll_offset + rows);
    let visible_start = skip + (reflowed.len() - skip).saturating_sub(terminal.scroll_offset);
    let mut result: Vec<Vec<TerminalCell>> = reflowed[visible_start..]
        .iter()
        .map(ScrollbackLine::decompress)
        .collect();
    result.truncate(rows);

    for row in terminal.grid.rows.iter() {
        if result.len() >= rows {
            break;
        }
        result.push(row.cells.clone());
    }
    while result.len() < rows {
        result.push(vec![blank_cell; cols]);
    }
    result
}

fn text_chars(text: &str) -> Vec<char> {
    text.chars().collect()
}

fn copied_line(line: &ScrollbackLine) -> ScrollbackLine {
    let mut copy = ScrollbackLine::compress(&line.decompress(), line.is_wrapped);
    copy.set_raw_row_id(line.raw_row_id());
    copy
}

#[test]
fn resize_preserves_full_screen_scroll_region() {
    let mut terminal = TerminalState::new(4, 3);

    terminal.on_resize(4, 6);

    assert_eq!(terminal.scroll_region_top, 0);
    assert_eq!(terminal.scroll_region_bottom, 5);
}

#[test]
fn alt_screen_resize_does_not_leak_background_into_primary_screen() {
    let mut terminal = TerminalState::new(4, 2);
    terminal.process_input(b"main\x1b[?1049h\x1b[44m");

    terminal.on_resize(8, 3);
    assert_eq!(terminal.grid.rows[0].cells[4].background, Color::Blue);
    assert_eq!(terminal.grid.rows[2].cells[0].background, Color::Blue);

    terminal.process_input(b"\x1b[?1049l");

    assert!(!terminal.is_alt_buffer_active());
    assert_eq!(terminal.grid.rows[0].cells[0].character, 'm');
    assert_eq!(terminal.grid.rows[0].cells[4].background, Color::Default);
    assert_eq!(terminal.grid.rows[2].cells[0].background, Color::Default);
}

#[test]
fn application_cursor_mode_is_tracked_independently_of_alt_screen() {
    let mut terminal = TerminalState::new(4, 2);

    assert!(!terminal.is_application_cursor_keys());
    terminal.process_input(b"\x1b[?1049h");
    assert!(terminal.is_alt_buffer_active());
    assert!(!terminal.is_application_cursor_keys());

    terminal.process_input(b"\x1b[?1h");
    assert!(terminal.is_application_cursor_keys());
    terminal.process_input(b"\x1b[?1l");
    assert!(!terminal.is_application_cursor_keys());
}

#[test]
fn osc7_rejects_remote_host_paths_for_local_session_restore() {
    assert_eq!(
        decode_osc7_cwd(&text_chars("file:///home/user/My%20Files"), &None),
        Some("/home/user/My Files".to_string())
    );
    assert_eq!(
        decode_osc7_cwd(&text_chars("file://localhost/tmp"), &None),
        Some("/tmp".to_string())
    );
    assert_eq!(
        decode_osc7_cwd(&text_chars("file://definitely-remote.invalid/etc"), &None),
        None
    );
}

#[test]
fn sgr_mouse_coordinates_are_not_limited_to_one_byte() {
    let mut terminal = TerminalState::new(4, 2);
    terminal.process_input(b"\x1b[?1000h\x1b[?1006h");

    assert_eq!(
        terminal.get_mouse_report(0, 254, 255).as_deref(),
        Some(b"\x1b[<0;255;256M".as_slice())
    );
    assert_eq!(
        terminal.get_mouse_report(0, 255, 256).as_deref(),
        Some(b"\x1b[<0;256;257M".as_slice())
    );
    assert_eq!(
        terminal.get_mouse_release_report(0, 999, 1000).as_deref(),
        Some(b"\x1b[<0;1000;1001m".as_slice())
    );
}

#[test]
fn legacy_mouse_coordinates_clamp_before_narrowing() {
    let mut terminal = TerminalState::new(4, 2);
    terminal.process_input(b"\x1b[?1000h");

    let origin = terminal.get_mouse_report(0, 0, 0).unwrap();
    assert_eq!(origin, b"\x1b[M !!");

    let large = terminal.get_mouse_report(0, 255, usize::MAX).unwrap();
    assert_eq!(&large[..4], b"\x1b[M ");
    assert_eq!(large[4], 255);
    assert_eq!(large[5], 255);

    let larger = terminal.get_mouse_report(0, 511, 256).unwrap();
    assert_eq!(larger[4], large[4]);
    assert_eq!(larger[5], large[5]);
}

#[test]
fn mouse_motion_modes_distinguish_drag_and_all_motion() {
    let mut terminal = TerminalState::new(4, 2);
    terminal.process_input(b"\x1b[?1002h");
    assert!(!terminal.should_report_mouse_motion(false));
    assert!(terminal.should_report_mouse_motion(true));

    terminal.process_input(b"\x1b[?1002l\x1b[?1003h");
    assert!(terminal.should_report_mouse_motion(false));
    assert!(terminal.should_report_mouse_motion(true));
}

#[test]
fn decstbm_zero_bottom_defaults_to_full_screen() {
    let mut terminal = TerminalState::new(4, 4);

    terminal.process_input(b"\x1b[1;0r");

    assert_eq!(terminal.scroll_region_top, 0);
    assert_eq!(terminal.scroll_region_bottom, 3);
}

#[test]
fn codex_resume_style_output_populates_scrollback() {
    let mut terminal = TerminalState::new(8, 3);

    terminal.process_input(b"\x1b[?2026h\x1b[1;0r\x1b[1;1H");
    terminal.process_input(b"line-1\r\nline-2\r\nline-3\r\nline-4\r\nline-5\r\n");
    terminal.process_input(b"\x1b[?2026l");

    assert!(
        terminal.scrollback_len() >= 3,
        "expected resumed TUI output to enter scrollback"
    );

    terminal.scroll(2);
    let visible = terminal.get_visible_cells();
    let text: String = visible[0]
        .iter()
        .map(|cell| cell.character)
        .collect::<String>()
        .trim_end()
        .to_string();

    assert!(
        text.starts_with("line-"),
        "expected scrollback viewport to show historical output, got {text:?}"
    );
}

#[test]
fn synchronized_primary_screen_redraws_do_not_fill_scrollback() {
    let mut terminal = TerminalState::new(24, 4);

    for seconds in 1..=3 {
        terminal.process_input(b"\x1b[?2026h\x1b[1;1H\x1b[2J");
        terminal.process_input(b">_ OpenAI Codex\r\n");
        terminal.process_input(format!("Booting MCP server ({seconds}s)").as_bytes());
        terminal.process_input(b"\x1b[?2026l");
    }

    assert_eq!(
        terminal.scrollback_len(),
        0,
        "primary-screen synchronized redraws should not be recorded as history"
    );
}

#[test]
fn top_margin_scroll_region_pushes_scrolled_lines_to_scrollback() {
    let mut terminal = TerminalState::new(24, 6);

    terminal.process_input(b"\x1b[1;4r\x1b[1;1H");
    terminal.process_input(b"hist-1\r\nhist-2\r\nhist-3\r\nhist-4\r\nhist-5\r\n");
    terminal.process_input(b"\x1b[r\x1b[5;1Hprompt\r\nstatus");

    let history: Vec<String> = terminal
        .scrollback
        .iter()
        .map(|line| {
            line.decompress()
                .iter()
                .map(|cell| cell.character)
                .collect::<String>()
                .trim_end()
                .to_string()
        })
        .collect();

    assert_eq!(
        history,
        ["hist-1", "hist-2"],
        "expected lines scrolled off a top-anchored region to remain scrollable"
    );

    assert_eq!(terminal.grid.rows[4].cells[0].character, 'p');
    assert_eq!(terminal.grid.rows[5].cells[0].character, 's');
}

#[test]
fn synchronized_primary_screen_entry_preserves_existing_history() {
    let mut terminal = TerminalState::new(24, 4);

    terminal.process_input(b"previous log\r\nshell prompt");
    terminal.process_input(b"\x1b[?2026h\x1b[1;1H\x1b[2J");
    terminal.process_input(b">_ OpenAI Codex\r\nBooting MCP server");
    terminal.process_input(b"\x1b[?2026l");
    terminal.process_input(b"\x1b[?2026h\x1b[1;1H\x1b[2J");
    terminal.process_input(b">_ OpenAI Codex\r\nBooting MCP server");
    terminal.process_input(b"\x1b[?2026l");

    assert_eq!(terminal.scrollback_len(), 2);
    let history: Vec<String> = terminal
        .scrollback
        .iter()
        .map(|line| {
            line.decompress()
                .iter()
                .map(|cell| cell.character)
                .collect::<String>()
                .trim_end()
                .to_string()
        })
        .collect();

    assert_eq!(history, ["previous log", "shell prompt"]);
}

#[test]
fn synchronized_alt_screen_snapshots_can_be_scrolled() {
    let mut terminal = TerminalState::new(12, 3);

    terminal.process_input(b"\x1b[?1049h");
    assert!(terminal.is_alt_buffer_active());

    terminal.process_input(b"\x1b[?2026h\x1b[1;1H");
    terminal.process_input(b"first page\r\nalpha\r\nomega");
    terminal.process_input(b"\x1b[?2026l");
    terminal.process_input(b"\x1b[?2026h\x1b[1;1H");
    terminal.process_input(b"second page\r\nbeta\r\ndone ");
    terminal.process_input(b"\x1b[?2026l");

    assert!(
        terminal.scrollback_len() >= 6,
        "expected synchronized alt-screen snapshots in scrollback"
    );

    terminal.scroll(3);
    assert!(terminal.scroll_offset > 0);
    let visible = terminal.get_visible_cells();
    let text = visible
        .iter()
        .flat_map(|row| {
            row.iter()
                .map(|cell| cell.character)
                .chain(std::iter::once('\n'))
        })
        .collect::<String>();

    assert!(
        text.contains("first page") || text.contains("second page"),
        "expected archived synchronized screen content, got {text:?}"
    );
}

#[test]
fn synchronized_alt_screen_redraw_rebases_live_selection() {
    let mut terminal = TerminalState::new(12, 3);
    terminal.process_input(b"\x1b[?1049h");
    terminal.process_input(b"\x1b[?2026h\x1b[1;1Hfirst\r\nsecond\x1b[?2026l");

    terminal.start_selection((0, 0));
    terminal.update_selection((0, 4));
    let old_base = terminal.scrollback_len();
    assert_eq!(terminal.selection.unwrap().anchor.0, old_base);

    terminal.process_input(b"\x1b[?2026h\x1b[1;1Hfresh\r\nsecond\r\nthird\x1b[?2026l");

    let new_base = terminal.scrollback_len();
    assert!(new_base > old_base);
    assert_eq!(terminal.selection.unwrap().anchor.0, new_base);
    assert_eq!(terminal.row_selection_cols(0), Some((0, 4)));
    assert_eq!(terminal.copy_selection().as_deref(), Some("fresh"));
}

#[test]
fn linefeed_at_bottom_pushes_to_scrollback_for_full_screen_region() {
    let mut terminal = TerminalState::new(4, 2);
    terminal.grid.rows[0].cells[0].character = 'A';
    terminal.grid.rows[1].cells[0].character = 'B';
    terminal.cursor_row = 1;
    terminal.cursor_col = 0;

    terminal.process_input(b"\n");

    assert_eq!(terminal.scrollback.len(), 1);
    assert_eq!(terminal.scrollback[0].decompress()[0].character, 'A');
    assert_eq!(terminal.grid.rows[0].cells[0].character, 'B');
    assert_eq!(terminal.grid.rows[1].cells[0].character, ' ');
}

#[test]
fn streamed_scrollback_reflow_matches_legacy_results_across_offsets_and_resize() {

    let mut terminal = TerminalState::new(5, 3);
    terminal.push_scrollback_compressed(text_line("abcd", 4, true));

    let mut styled_tail = text_line("ef", 4, false).decompress();
    styled_tail[3].foreground = Color::Red;
    styled_tail[3].flags.set_attr(ATTR_BOLD, true);
    terminal.push_scrollback_compressed(ScrollbackLine::compress(&styled_tail, false));

    terminal.push_scrollback_compressed(text_line("ghijklm", 7, false));
    terminal.push_scrollback_compressed(text_line("", 6, false));
    terminal.push_scrollback_compressed(text_line("nopqr", 5, true));
    terminal.push_scrollback_compressed(text_line("stu", 3, false));

    for offset in 1..=terminal.scrollback.len() {
        terminal.scroll_offset = offset;
        let expected = legacy_reflowed_visible_cells(&terminal);
        let actual = terminal.get_visible_cells();
        assert_cell_grids_equal(
            actual.as_ref(),
            &expected,
            &format!("streamed reflow at offset {offset}"),
        );
    }

    terminal.on_resize(6, 4);
    for offset in 1..=terminal.scrollback.len() {
        terminal.scroll_offset = offset;
        let expected = legacy_reflowed_visible_cells(&terminal);
        let actual = terminal.get_visible_cells();
        assert_cell_grids_equal(
            actual.as_ref(),
            &expected,
            &format!("streamed reflow after resize at offset {offset}"),
        );
    }
}
