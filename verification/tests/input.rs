use ember_terminal::cell::Color;
use ember_terminal::cell::HyperlinkId;
use ember_terminal::cell::TerminalCell;
use ember_terminal::history::ScrollbackLine;
use ember_terminal::host::MAX_OSC8_PARAMS_BYTES;
use ember_terminal::host::MAX_OSC8_URI_BYTES;
use ember_terminal::parser::MAX_PENDING_ESCAPE;
use ember_terminal::state::TerminalState;
use std::collections::VecDeque;

fn copied_line(line: &ScrollbackLine) -> ScrollbackLine {
    let mut copy = ScrollbackLine::compress(&line.decompress(), line.is_wrapped);
    copy.set_raw_row_id(line.raw_row_id());
    copy
}

fn reflow_all(lines: &[ScrollbackLine], cols: usize) -> Vec<ScrollbackLine> {
    let queue: VecDeque<ScrollbackLine> = lines.iter().map(copied_line).collect();
    TerminalState::reflow_lines(&queue, cols, &TerminalCell::default())
}

fn rendered_id(params: &str, target: &str) -> HyperlinkId {
    let mut terminal = TerminalState::new(4, 1);
    let sequence = format!("\x1b]8;{params};{target}\x1b\\X");
    terminal.process_input(sequence.as_bytes());
    terminal.grid.rows[0].cells[0].hyperlink_id
}

#[test]
fn osc8_hyperlink_survives_every_input_batch_boundary() {
    let target: &str = "https://example.test/real-target";
    let label: &str = "masked label";
    let opening = format!("\x1b]8;id=fragmented;{target}\x1b\\");

    for split_at in 1..opening.len() {
        let mut terminal = TerminalState::new(32, 2);
        terminal.process_input(&opening.as_bytes()[..split_at]);
        terminal.process_input(&opening.as_bytes()[split_at..]);
        terminal.process_input(label.as_bytes());
        terminal.process_input(b"\x1b]8;;\x1b\\X");

        let id = terminal.grid.rows[0].cells[0].hyperlink_id;
        assert!(!id.is_none(), "OSC 8 was lost at input split {split_at}");
        assert_eq!(terminal.hyperlink_uri(id), Some(target));
        assert!(terminal.grid.rows[0].cells[..label.len()]
            .iter()
            .all(|cell| cell.hyperlink_id == id));
        assert_eq!(terminal.grid.rows[0].cells[label.len()].character, 'X');
        assert_eq!(
            terminal.grid.rows[0].cells[label.len()].hyperlink_id,
            HyperlinkId::none()
        );
    }
}

#[test]
fn osc8_rejects_oversized_control_and_unsafe_targets() {

    assert!(rendered_id(&"p".repeat(MAX_OSC8_PARAMS_BYTES + 1), "https://safe.test").is_none());
    assert!(rendered_id("id=bad\u{1}", "https://safe.test").is_none());
    assert!(rendered_id(
        "",
        &format!("https://safe.test/{}", "x".repeat(MAX_OSC8_URI_BYTES))
    )
    .is_none());
    assert!(rendered_id("", "https://safe.test/bad\u{7f}").is_none());
    assert!(rendered_id("", "javascript:alert(1)").is_none());
    assert!(rendered_id("", "data:text/html,hello").is_none());
    assert!(rendered_id("", "unknown-scheme:payload").is_none());

    let mut terminal = TerminalState::new(4, 1);
    terminal.process_input(b"\x1b]8;;https://safe.test\x1b\\A\x1b]8;;javascript:alert(1)\x1b\\B");
    assert!(!terminal.grid.rows[0].cells[0].hyperlink_id.is_none());
    assert!(terminal.grid.rows[0].cells[1].hyperlink_id.is_none());
}

#[test]
fn osc8_link_ids_survive_scrollback_reflow_and_selection() {
    let target: &str = "https://example.test/history";
    let mut terminal = TerminalState::new(5, 2);
    terminal.process_input(format!("\x1b]8;;{target}\x1b\\abcdefghijk\x1b]8;;\x1b\\").as_bytes());

    assert!(!terminal.scrollback.is_empty());
    let archived = terminal.scrollback[0].decompress();
    let id = archived[0].hyperlink_id;
    assert!(!id.is_none());
    assert_eq!(terminal.hyperlink_uri(id), Some(target));
    assert!(archived[..5].iter().all(|cell| cell.hyperlink_id == id));

    let historical: Vec<ScrollbackLine> = terminal.scrollback.iter().map(copied_line).collect();
    let reflowed = reflow_all(&historical, 3);
    let reflowed_linked: Vec<_> = reflowed
        .iter()
        .flat_map(ScrollbackLine::decompress)
        .filter(|cell| cell.character != ' ')
        .collect();
    assert_eq!(reflowed_linked.len(), 5);
    assert!(reflowed_linked.iter().all(|cell| cell.hyperlink_id == id));

    terminal.on_resize(3, 2);
    terminal.scroll(1);
    let visible = terminal.get_visible_cells();
    assert!(visible.iter().flatten().any(|cell| cell.hyperlink_id == id));

    terminal.scroll(-1);
    terminal.start_selection((0, 0));
    terminal.update_selection((0, 2));
    let before = terminal.grid.rows[0].cells[0].hyperlink_id;
    assert_eq!(terminal.copy_selection().as_deref(), Some("fgh"));
    assert_eq!(terminal.grid.rows[0].cells[0].hyperlink_id, before);
    assert_eq!(terminal.hyperlink_uri(before), Some(target));
}

#[test]
fn osc8_marks_both_cells_of_a_wide_masked_label() {
    let mut terminal = TerminalState::new(4, 1);
    terminal.process_input("\x1b]8;;https://example.test/wide\x1b\\点\x1b]8;;\x1b\\".as_bytes());

    let id = terminal.grid.rows[0].cells[0].hyperlink_id;
    assert!(!id.is_none());
    assert_eq!(terminal.grid.rows[0].cells[1].hyperlink_id, id);
    assert!(terminal.grid.rows[0].cells[1].flags.wide_continuation());
}

#[test]
fn osc_window_title_survives_every_input_batch_boundary() {
    for terminator in ["\x07", "\x1b\\"] {
        let sequence = format!("\x1b]0;fragmented title{terminator}");
        for split_at in 1..sequence.len() {
            let mut terminal = TerminalState::new(8, 2);
            terminal.process_input(&sequence.as_bytes()[..split_at]);
            assert!(
                terminal.host.window_title.is_empty(),
                "incomplete OSC was applied at split {split_at}"
            );
            terminal.process_input(&sequence.as_bytes()[split_at..]);
            assert_eq!(
                terminal.host.window_title, "fragmented title",
                "OSC was lost at input split {split_at}"
            );
            assert!(terminal.parser.pending.is_empty());
        }
    }
}

#[test]
fn fragmented_osc_advances_its_scan_cursor_and_stays_bounded() {
    let mut terminal = TerminalState::new(8, 2);
    terminal.process_input(b"\x1b]0;stream");

    for fragment in [b"ed-".as_slice(), b"ti".as_slice(), b"tle".as_slice()] {
        let old_len = terminal.parser.pending.len();
        terminal.process_input(fragment);
        assert_eq!(terminal.parser.pending.len(), old_len + fragment.len());
    }
    terminal.process_input(b"\x07Z");
    assert!(terminal.parser.pending.is_empty());
    assert_eq!(terminal.host.window_title, "streamed-title");
    assert_eq!(terminal.grid.rows[0].cells[0].character, 'Z');
}

#[test]
fn osc_terminators_straddling_chunks_complete_the_sequence() {
    let mut terminal = TerminalState::new(8, 2);
    terminal.process_input(b"\x1b]0;straddle\x1b");
    assert!(!terminal.parser.pending.is_empty());
    terminal.process_input(b"\\Y");
    assert!(terminal.parser.pending.is_empty());
    assert_eq!(terminal.host.window_title, "straddle");
    assert_eq!(terminal.grid.rows[0].cells[0].character, 'Y');

    let mut terminal = TerminalState::new(8, 2);
    terminal.process_input(b"\x1b]0;ab\x1b");
    terminal.process_input(b"cd\x07");
    assert_eq!(terminal.host.window_title, "ab\x1bcd");

    let mut terminal = TerminalState::new(8, 2);
    terminal.process_input(b"\x1b]0;ab\x1b");
    terminal.process_input(b"\x1b\\");
    assert_eq!(terminal.host.window_title, "ab\x1b");
}

#[test]
fn oversized_osc_is_dropped_and_parsing_resumes_in_ground_state() {
    let mut terminal = TerminalState::new(8, 2);
    let mut oversized = b"\x1b]0;".to_vec();
    oversized.resize(MAX_PENDING_ESCAPE + 1, b'A');
    terminal.process_input(&oversized);
    assert!(terminal.parser.pending.is_empty());

    terminal.process_input(b"ok");
    assert_eq!(terminal.grid.rows[0].cells[0].character, 'o');
    assert_eq!(terminal.grid.rows[0].cells[1].character, 'k');

    terminal.process_input(b"\x1b]0;title");
    assert!(!terminal.parser.pending.is_empty());
    let chunk = vec![b'B'; MAX_PENDING_ESCAPE];
    terminal.process_input(&chunk);
    assert!(terminal.parser.pending.is_empty());
    terminal.process_input(b"\x1b]0;new\x07");
    assert_eq!(terminal.host.window_title, "new");
}

#[test]
fn dcs_stays_opaque_across_every_input_batch_boundary() {
    let sequence = b"\x1bP1;2|a=opaque-body\x1b\\Z";
    for split_at in 1..sequence.len() {
        let mut terminal = TerminalState::new(8, 2);
        terminal.process_input(&sequence[..split_at]);
        terminal.process_input(&sequence[split_at..]);
        assert_eq!(
            terminal.grid.rows[0].cells[0].character, 'Z',
            "byte after ST was lost at input split {split_at}"
        );
        assert_eq!(
            terminal.grid.rows[0].cells[1].character, ' ',
            "opaque DCS payload leaked at input split {split_at}"
        );
        assert!(terminal.parser.pending.is_empty());
    }
}

#[test]
fn fragmented_dcs_advances_its_scan_cursor_and_stays_bounded() {
    let mut terminal = TerminalState::new(8, 2);
    terminal.process_input(b"\x1bP1;2|");

    for fragment in [b"ab".as_slice(), b"cd".as_slice()] {
        let old_len = terminal.parser.pending.len();
        terminal.process_input(fragment);
        assert_eq!(terminal.parser.pending.len(), old_len + fragment.len());
    }
    terminal.process_input(b"\x1b\\Z");
    assert!(terminal.parser.pending.is_empty());
    assert_eq!(terminal.grid.rows[0].cells[0].character, 'Z');

    let mut oversized = b"\x1bP".to_vec();
    oversized.resize(MAX_PENDING_ESCAPE + 1, b'A');
    terminal.process_input(&oversized);
    assert!(terminal.parser.pending.is_empty());
    terminal.process_input(b"\x1b\\no");
    assert_eq!(terminal.grid.rows[0].cells[1].character, '\\');
    assert_eq!(terminal.grid.rows[0].cells[2].character, 'n');
    assert_eq!(terminal.grid.rows[0].cells[3].character, 'o');
}

#[test]
fn ris_resets_graphics_and_parser_state_without_printing_the_final_byte() {
    let mut terminal = TerminalState::new(8, 3);
    terminal.set_max_scrollback(17);
    terminal.process_input(b"before\x1b[31m\x1b[?25l");

    terminal.process_input(b"\x1bcZ");

    assert_eq!(terminal.grid.rows[0].cells[0].character, 'Z');
    assert_eq!((terminal.cursor_col, terminal.cursor_row), (1, 0));
    assert!(terminal.is_cursor_visible());
    assert_eq!(terminal.current_fg, Color::Default);
    assert_eq!(terminal.max_scrollback(), 17);
    assert!(terminal.parser.pending.is_empty());
}
