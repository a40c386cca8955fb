use ember_terminal::state::TerminalState;

/// A prompt with `cmd` typed at it and the cursor left at the end.
fn terminal_at_prompt(cols: usize, rows: usize, cmd: &str) -> TerminalState {
    let mut terminal = TerminalState::new(cols, rows);
    terminal.process_input(b"\x1b]133;A\x1b\\$ \x1b]133;B\x1b\\");
    terminal.process_input(cmd.as_bytes());
    terminal
}

#[test]
fn a_click_left_of_the_cursor_walks_back_to_it() {
    let terminal = terminal_at_prompt(32, 4, "echo hello");
    assert_eq!(terminal.get_cursor_pos(), (0, 12));
    assert_eq!(
        terminal.click_cursor_move(0, 7, true),
        b"\x1b[D".repeat(5),
        "five characters back from the end of `hello`"
    );
}

#[test]
fn a_click_past_the_command_stops_at_its_end() {
    let terminal = terminal_at_prompt(32, 4, "echo hi");
    assert!(
        terminal.click_cursor_move(0, 30, true).is_empty(),
        "the cursor is already at the end of the input"
    );
    let mut terminal = terminal;
    terminal.process_input(b"\x1b[D\x1b[D\x1b[D");
    assert_eq!(terminal.get_cursor_pos(), (0, 6));
    assert_eq!(terminal.click_cursor_move(0, 30, true), b"\x1b[C".repeat(3));
}

/// A prompt with `typed` at it and `ghost` painted past the cursor the way a
/// fish-style shell previews a completion.
///
/// The byte shape is jsh's own, captured from the running shell: the
/// suggestion in ANSI colour 8, then the cursor parked back at the end of the
/// typed text with CHA.
fn terminal_with_suggestion(cols: usize, rows: usize, typed: &str, ghost: &str) -> TerminalState {
    let mut terminal = terminal_at_prompt(cols, rows, typed);
    let (_, col) = terminal.get_cursor_pos();
    terminal.process_input(format!("\x1b[38;5;8m{ghost}\x1b[0m\x1b[{}G", col + 1).as_bytes());
    terminal
}

#[test]
fn an_inline_suggestion_is_not_part_of_the_input() {
    let terminal = terminal_with_suggestion(32, 4, "echo he", "llo world");
    assert_eq!(terminal.get_cursor_pos(), (0, 9));

    assert!(
        terminal.click_cursor_move(0, 30, true).is_empty(),
        "clicking the empty space past the suggestion must not accept it"
    );
    assert!(
        terminal.click_cursor_move(0, 12, true).is_empty(),
        "nor may clicking the suggestion itself, which is not a place to edit"
    );
    assert_eq!(
        terminal.click_cursor_move(0, 5, true),
        b"\x1b[D".repeat(4),
        "moving back into what was really typed still works"
    );
}

/// A prompt with `typed` at it, a right-aligned decoration painted flush with
/// the terminal's right edge (the way jsh and fish show the previous command's
/// duration), and the cursor back at the end of the typed text.
fn terminal_with_rprompt(cols: usize, rows: usize, typed: &str, rprompt: &str) -> TerminalState {
    let mut terminal = terminal_at_prompt(cols, rows, typed);
    let (_, col) = terminal.get_cursor_pos();
    terminal.process_input(
        format!(
            "\x1b[{}G\x1b[33m{rprompt}\x1b[0m\x1b[{}G",
            cols - rprompt.chars().count() + 1,
            col + 1
        )
        .as_bytes(),
    );
    terminal
}

#[test]
fn a_right_aligned_duration_is_not_part_of_the_input() {
    let mut terminal = terminal_with_rprompt(32, 4, "echo hello", "2.3s");
    terminal.process_input(b"\x1b[D\x1b[D\x1b[D\x1b[D\x1b[D");
    assert_eq!(terminal.get_cursor_pos(), (0, 7));

    assert_eq!(
        terminal.click_cursor_move(0, 30, true),
        b"\x1b[C".repeat(5),
        "a click on the duration walks to the end of the command and stops"
    );
    assert_eq!(
        terminal.click_cursor_move(0, 20, true),
        b"\x1b[C".repeat(5),
        "so does a click in the gap before it"
    );
}

#[test]
fn an_interior_gap_away_from_the_edge_stays_reachable() {
    let mut terminal = terminal_at_prompt(40, 4, "echo 'a          b'");
    terminal.process_input(b"\x1b[D".repeat(15).as_slice());
    assert_eq!(terminal.get_cursor_pos(), (0, 6));
    assert_eq!(
        terminal.click_cursor_move(0, 38, true),
        b"\x1b[C".repeat(15),
        "clicking past the command still reaches its real end"
    );
}

#[test]
fn ordinary_text_past_the_cursor_is_still_reachable() {
    let mut terminal = terminal_at_prompt(32, 4, "echo hello");
    terminal.process_input(b"\x1b[D\x1b[D\x1b[D\x1b[D\x1b[D");
    assert_eq!(terminal.get_cursor_pos(), (0, 7));
    assert_eq!(terminal.click_cursor_move(0, 30, true), b"\x1b[C".repeat(5));
}

#[test]
fn a_click_on_the_prompt_goes_to_the_start_of_the_line() {
    let terminal = terminal_at_prompt(32, 4, "ls");
    assert_eq!(terminal.click_cursor_move(0, 0, true), b"\x1b[D".repeat(4));
}

#[test]
fn a_click_in_a_completed_block_preserves_the_live_cursor() {
    let mut terminal = TerminalState::new(32, 4);
    terminal.process_input(b"completed output\r\n");
    terminal.process_input(b"\x1b]133;A\x1b\\$ \x1b]133;B\x1b\\echo hello");
    assert_eq!(terminal.get_cursor_pos(), (1, 12));
    assert!(
        terminal.click_cursor_move(0, 7, true).is_empty(),
        "history interaction must not synthesize Left/Home for the live editor"
    );
    assert_eq!(
        terminal.click_cursor_move(1, 7, true),
        b"\x1b[D".repeat(5),
        "click-to-place remains active on the current input row"
    );
}

#[test]
fn a_click_follows_a_soft_wrap_onto_the_previous_row() {
    let terminal = terminal_at_prompt(10, 4, "abcdefghijkl");
    assert_eq!(terminal.get_cursor_pos(), (1, 4));
    assert_eq!(terminal.click_cursor_move(0, 4, true), b"\x1b[D".repeat(10));
}

#[test]
fn wide_characters_cost_one_arrow_each() {
    let terminal = terminal_at_prompt(32, 4, "echo 你好世界");
    assert_eq!(terminal.get_cursor_pos(), (0, 15));
    assert_eq!(
        terminal.click_cursor_move(0, 7, true),
        b"\x1b[D".repeat(4),
        "four characters, not the eight cells they cover"
    );
}

#[test]
fn a_disabled_config_sends_nothing() {
    let terminal = terminal_at_prompt(32, 4, "echo hello");
    assert!(terminal.click_cursor_move(0, 7, false).is_empty());
}

#[test]
fn a_running_command_keeps_the_click() {
    let mut terminal = terminal_at_prompt(32, 4, "less big.log");
    terminal.process_input(b"\x1b]133;C\x1b\\");
    assert!(terminal.click_cursor_move(0, 7, true).is_empty());
}

#[test]
fn mouse_reporting_and_the_alternate_screen_keep_the_click() {
    let mut terminal = terminal_at_prompt(32, 4, "echo hello");
    terminal.process_input(b"\x1b[?1000h");
    assert!(terminal.click_cursor_move(0, 7, true).is_empty());
    terminal.process_input(b"\x1b[?1000l");
    assert!(!terminal.click_cursor_move(0, 7, true).is_empty());

    terminal.process_input(b"\x1b[?1049h");
    assert!(terminal.click_cursor_move(0, 7, true).is_empty());
}

#[test]
fn scrolled_back_clicks_are_history_not_input() {
    let mut terminal = terminal_at_prompt(20, 3, "echo hello");
    terminal.process_input(b"\r\nfiller\r\nfiller\r\nfiller\r\n");
    terminal.scroll_offset = 1;
    assert!(
        terminal.click_cursor_move(0, 3, true).is_empty(),
        "viewport rows no longer line up with grid rows"
    );
}

#[test]
fn application_cursor_keys_switch_the_arrow_encoding() {
    let mut terminal = terminal_at_prompt(32, 4, "echo hello");
    terminal.process_input(b"\x1b[?1h");
    assert_eq!(terminal.click_cursor_move(0, 11, true), b"\x1bOD".to_vec());
}
