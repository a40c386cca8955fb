use ember_terminal::bounded_text::BoundedTextBuilder;
use ember_terminal::click::ShellPhase;
use ember_terminal::provenance::BufferAnchor;
use ember_terminal::state::TerminalState;

fn prompt(terminal: &mut TerminalState) {
    terminal.process_input(b"\x1b]133;A\x07$ \x1b]133;B\x07");
}

#[test]
fn dimensions_are_brought_into_range() {
    assert_eq!(TerminalState::new(0, 0).get_dimensions(), TerminalState::new(1, 1).get_dimensions());
    let (cols, rows) = TerminalState::new(usize::MAX, usize::MAX).get_dimensions();
    assert_eq!(TerminalState::new(cols + 1, rows + 1).get_dimensions(), (cols, rows));
}

#[test]
fn text_within_the_limit_is_kept_whole() {
    let mut builder = BoundedTextBuilder::new(8);
    for ch in "abc好".chars() {
        builder.push(ch);
    }
    let whole = builder.finish();
    assert_eq!(whole.text, "abc好");
    assert!(!whole.truncated);
    assert_eq!(whole.total_bytes, 6);
}

#[test]
fn text_beyond_the_limit_keeps_head_and_tail_within_it() {
    for limit in 0..24 {
        let mut builder = BoundedTextBuilder::new(limit);
        for ch in "0123456789好的abcdefghij".chars() {
            builder.push(ch);
        }
        let cut = builder.finish();
        assert!(cut.text.len() <= limit, "{limit}");
        assert!(cut.truncated);
        assert_eq!(cut.total_bytes, 26);
    }
}

#[test]
fn a_clipboard_text_is_decoded() {
    let mut terminal = TerminalState::new(8, 2);
    terminal.process_input(b"\x1b]52;c;aGVsbG8gd29ybGQ=\x07");
    assert_eq!(terminal.take_osc52_clipboard_set().as_deref(), Some("hello world"));
    assert_eq!(terminal.take_osc52_clipboard_set(), None);
    terminal.process_input(b"\x1b]52;c;***\x07");
    assert_eq!(terminal.take_osc52_clipboard_set(), None);
    terminal.process_input(b"\x1b]52;c;?\x07");
    assert!(terminal.take_osc52_clipboard_query());
    assert!(!terminal.take_osc52_clipboard_query());
}

#[test]
fn paste_events_carry_encoded_types_and_fresh_tokens() {
    let mut terminal = TerminalState::new(8, 2);
    terminal.process_input(b"\x1b[?5522h");
    let types = vec!["text/plain".to_string()];
    let first = terminal.build_paste_event(&types);
    let second = terminal.build_paste_event(&types);
    assert_ne!(first, second);
    let text = String::from_utf8(first).unwrap();
    assert!(text.contains("dGV4dC9wbGFpbg=="), "{text}");
}

#[test]
fn combining_marks_compose_or_vanish() {
    let mut terminal = TerminalState::new(8, 1);
    terminal.process_input("e\u{301}x\u{20dd}".as_bytes());
    assert_eq!(terminal.grid.rows[0].cells[0].character, 'é');
    assert_eq!(terminal.grid.rows[0].cells[1].character, 'x');
    assert_eq!(terminal.get_cursor_pos(), (0, 2));
}

#[test]
fn malformed_bytes_become_replacement_characters() {
    let mut terminal = TerminalState::new(8, 1);
    terminal.process_input(b"\xffa\xe5b\xc0\x80");
    let shown: String = terminal.grid.rows[0].cells.iter().map(|cell| cell.character).collect();
    assert_eq!(shown.trim_end(), "\u{fffd}a\u{fffd}b\u{fffd}");
}

#[test]
fn words_end_at_what_is_not_alphanumeric() {
    let mut terminal = TerminalState::new(20, 1);
    terminal.process_input("(größe1) x".as_bytes());
    terminal.select_word_at(0, 3);
    assert_eq!(terminal.copy_selection().as_deref(), Some("größe1"));
}

#[test]
fn another_character_set_translates_each_byte() {
    let mut terminal = TerminalState::new(8, 1);
    terminal.process_input(b"\x1b)0a\x0eqq\x0fq");
    let shown: String = terminal.grid.rows[0].cells.iter().map(|cell| cell.character).collect();
    assert_eq!(shown.trim_end(), "a──q");
}

#[test]
fn an_approval_is_refused_for_each_reason() {
    let mut terminal = TerminalState::new(20, 3);
    assert_eq!(
        terminal.arm_agent_execution(0, "ls"),
        Err("invalid Agent execution identity")
    );
    assert_eq!(
        terminal.arm_agent_execution(1, "a\u{202e}b"),
        Err("the Agent command is unsafe to review or execute")
    );
    assert_eq!(
        terminal.arm_agent_execution(1, "ls"),
        Err("shell integration has not reported a prompt")
    );
    terminal.process_input(b"\x1b]133;A\x07$ ");
    assert_eq!(
        terminal.arm_agent_execution(1, "ls"),
        Err("the shell is not waiting at an editable prompt")
    );
    terminal.process_input(b"\x1b]133;B\x07");
    terminal.process_input(b"typed");
    assert_eq!(
        terminal.arm_agent_execution(1, "ls"),
        Err("the shell prompt is not empty")
    );
    let mut ready = TerminalState::new(20, 3);
    prompt(&mut ready);
    assert_eq!(ready.arm_agent_execution(1, "ls"), Ok(()));
    assert_eq!(
        ready.arm_agent_execution(2, "ls"),
        Err("another Agent command is already armed")
    );
    ready.disarm_agent_execution(1);
    ready.note_user_input(b"x");
    assert_eq!(
        ready.arm_agent_execution(2, "ls"),
        Err("the shell prompt already contains local input")
    );
}

#[test]
fn the_phase_of_the_shell_follows_its_marks() {
    let mut terminal = TerminalState::new(20, 3);
    assert_eq!(terminal.shell_phase(), ShellPhase::Unknown);
    prompt(&mut terminal);
    assert_eq!(terminal.shell_phase(), ShellPhase::Editing);
    terminal.process_input(b"ls\r\n\x1b]133;C\x07");
    assert_eq!(terminal.shell_phase(), ShellPhase::Running);
    terminal.process_input(b"\x1b]133;D;0\x07");
    assert_eq!(terminal.shell_phase(), ShellPhase::Unknown);
}

#[test]
fn content_extends_to_the_last_row_that_is_not_blank() {
    let mut terminal = TerminalState::new(8, 5);
    let start = BufferAnchor { line_id: 1, column: 0 };
    assert_eq!(terminal.primary_content_extent_from(start), None);
    terminal.process_input(b"a\r\nb\x1b[4;1Hc\x1b[2;1H");
    assert_eq!(terminal.primary_content_extent_from(start), Some(3));
    let below = BufferAnchor { line_id: 4, column: 0 };
    assert_eq!(terminal.primary_content_extent_from(below), None);
    terminal.process_input(b"\x1b[?1049h");
    assert_eq!(terminal.primary_content_extent_from(start), None);
}
