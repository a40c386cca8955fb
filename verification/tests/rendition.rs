use ember_terminal::cell::Color;
use ember_terminal::cell::UnderlineStyle;
use ember_terminal::colors::Rgb;
use ember_terminal::state::TerminalState;

#[test]
fn cleared_cells_keep_active_background() {
    let mut terminal = TerminalState::new(8, 2);

    terminal.process_input(b"\x1b[44mAB\x1b[1;1H\x1b[K");

    assert_eq!(terminal.grid.rows[0].cells[0].background, Color::Blue);
    assert_eq!(terminal.grid.rows[0].cells[1].background, Color::Blue);
}

#[test]
fn empty_sgr_sequence_resets_attributes() {
    let mut terminal = TerminalState::new(8, 2);

    terminal.process_input(b"\x1b[7;36;44mA\x1b[mB");

    let first = &terminal.grid.rows[0].cells[0];
    let second = &terminal.grid.rows[0].cells[1];

    assert!(first.flags.inverse());
    assert_eq!(first.foreground, Color::Cyan);
    assert_eq!(first.background, Color::Blue);

    assert!(!second.flags.inverse());
    assert_eq!(second.foreground, Color::Default);
    assert_eq!(second.background, Color::Default);
}

#[test]
fn split_truecolor_sequence_does_not_leak_text() {
    let mut terminal = TerminalState::new(32, 2);

    terminal.process_input(b"\x1b[38");
    terminal.process_input(b";2;81;175;239msrc");

    assert_eq!(terminal.grid.rows[0].cells[0].character, 's');
    assert_eq!(terminal.grid.rows[0].cells[1].character, 'r');
    assert_eq!(terminal.grid.rows[0].cells[2].character, 'c');
    assert_eq!(terminal.grid.rows[0].cells[0].foreground, Color::Rgb(81, 175, 239));
}

#[test]
fn sgr_underline_with_semicolon_keeps_following_attr() {
    let mut terminal = TerminalState::new(8, 2);
    terminal.process_input(b"\x1b[4;1mA");
    let cell = &terminal.grid.rows[0].cells[0];
    assert_eq!(cell.flags.underline(), UnderlineStyle::Single);
    assert!(cell.flags.bold(), "粗体不应被下划线吞掉");
}

#[test]
fn sgr_underline_colon_substyle_is_extended() {
    let mut terminal = TerminalState::new(8, 2);
    terminal.process_input(b"\x1b[4:3mA");
    let cell = &terminal.grid.rows[0].cells[0];
    assert_eq!(cell.flags.underline(), UnderlineStyle::Curly);
    assert!(!cell.flags.bold());
}

#[test]
fn csi_empty_leading_param_defaults() {
    let mut terminal = TerminalState::new(8, 2);
    terminal.process_input(b"\x1b[;3HX");
    assert_eq!(terminal.grid.rows[0].cells[2].character, 'X');
}

#[test]
fn ed_clear_screen_does_not_move_cursor() {
    let mut terminal = TerminalState::new(8, 3);
    terminal.process_input(b"\x1b[2;3H");
    terminal.process_input(b"\x1b[2J");
    terminal.process_input(b"X");
    assert_eq!(terminal.grid.rows[1].cells[2].character, 'X');
}

#[test]
fn vpa_and_hpa_position_cursor() {
    let mut terminal = TerminalState::new(8, 4);
    terminal.process_input(b"\x1b[3d");
    terminal.process_input(b"\x1b[5`");
    terminal.process_input(b"Z");
    assert_eq!(terminal.grid.rows[2].cells[4].character, 'Z');
}

#[test]
fn cuu_does_not_scroll_at_top_margin() {
    let mut terminal = TerminalState::new(8, 4);
    terminal.process_input(b"\x1b[2;4r");
    terminal.process_input(b"\x1b[2;1HABC");
    terminal.process_input(b"\x1b[2;1H\x1b[A");
    assert_eq!(terminal.grid.rows[1].cells[0].character, 'A');
    assert_eq!(terminal.grid.rows[1].cells[1].character, 'B');
}

#[test]
fn trailing_escape_is_buffered_until_next_chunk() {
    let mut terminal = TerminalState::new(8, 2);

    terminal.process_input(b"\x1b");
    terminal.process_input(b"[31mX");

    assert_eq!(terminal.grid.rows[0].cells[0].character, 'X');
    assert_eq!(terminal.grid.rows[0].cells[0].foreground, Color::Red);
}

#[test]
fn csi_executes_embedded_crlf_and_continues_parsing() {
    let mut terminal = TerminalState::new(16, 3);

    terminal.process_input(b"A\x1b[3\r\n3mB\x1b[mC");

    assert!(terminal.parser.pending.is_empty());
    assert_eq!(terminal.cursor_row, 1);
    assert_eq!(terminal.grid.rows[1].cells[0].character, 'B');
    assert_eq!(terminal.grid.rows[1].cells[0].foreground, Color::Yellow);
    assert_eq!(terminal.grid.rows[1].cells[1].character, 'C');
    assert_eq!(terminal.grid.rows[1].cells[1].foreground, Color::Default);
}

#[test]
fn partial_csi_does_not_replay_embedded_linefeed_on_next_chunk() {
    let mut terminal = TerminalState::new(16, 4);

    terminal.process_input(b"\x1b[3\r\n");
    assert_eq!(terminal.cursor_row, 1);
    assert_eq!(terminal.parser.pending, b"\x1b[3");

    terminal.process_input(b"3mX");

    assert!(terminal.parser.pending.is_empty());
    assert_eq!(terminal.cursor_row, 1);
    assert_eq!(terminal.grid.rows[1].cells[0].character, 'X');
    assert_eq!(terminal.grid.rows[1].cells[0].foreground, Color::Yellow);
}

#[test]
fn dec_special_graphics_charset_maps_line_drawing() {
    let mut terminal = TerminalState::new(8, 2);

    terminal.process_input(b"\x1b(0qx\x0fA");

    assert_eq!(terminal.grid.rows[0].cells[0].character, '─');
    assert_eq!(terminal.grid.rows[0].cells[1].character, '│');
    assert_eq!(terminal.grid.rows[0].cells[2].character, 'A');
}

#[test]
fn decscusr_with_intermediate_space_does_not_leak_text() {
    let mut terminal = TerminalState::new(8, 2);

    terminal.process_input(b"\x1b[0 qX");

    assert_eq!(terminal.grid.rows[0].cells[0].character, 'X');
}

#[test]
fn private_csi_u_sequence_does_not_restore_cursor_or_leak() {
    let mut terminal = TerminalState::new(8, 2);

    terminal.process_input(b"AB");
    terminal.process_input(b"\x1b[?4uC");

    assert_eq!(terminal.grid.rows[0].cells[0].character, 'A');
    assert_eq!(terminal.grid.rows[0].cells[1].character, 'B');
    assert_eq!(terminal.grid.rows[0].cells[2].character, 'C');
}

#[test]
fn csi_with_gt_prefix_is_consumed_without_printing_parameters() {
    let mut terminal = TerminalState::new(8, 2);

    terminal.process_input(b"\x1b[>4;1mZ");

    assert_eq!(terminal.grid.rows[0].cells[0].character, 'Z');
    assert_eq!(terminal.grid.rows[0].cells[1].character, ' ');
}

#[test]
fn dcs_sequence_is_consumed_without_leaking_text() {
    let mut terminal = TerminalState::new(8, 2);

    terminal.process_input(b"\x1bP$q q\x1b\\X");

    assert_eq!(terminal.grid.rows[0].cells[0].character, 'X');
    assert_eq!(terminal.grid.rows[0].cells[1].character, ' ');
}

#[test]
fn primary_and_secondary_device_attributes_are_reported() {
    let mut terminal = TerminalState::new(8, 2);

    terminal.process_input(b"\x1b[c\x1b[>c");

    assert_eq!(
        String::from_utf8(terminal.get_output()).unwrap(),
        "\x1b[?65;1;9c\x1b[>1;7802;0c"
    );
}

#[test]
fn xtversion_query_is_reported() {
    let mut terminal = TerminalState::new(8, 2);

    terminal.process_input(b"\x1b[>0q");

    assert_eq!(
        String::from_utf8(terminal.get_output()).unwrap(),
        "\x1bP>|VTE(7802)\x1b\\"
    );
}
