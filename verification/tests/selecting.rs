use ember_terminal::state::TerminalState;

#[test]
fn double_click_selects_full_url() {
    let mut terminal = TerminalState::new(64, 2);

    terminal.process_input(b"see https://example.com/path?a=1&b=2 now");
    terminal.select_word_at(0, 12);

    assert_eq!(
        terminal.copy_selection().as_deref(),
        Some("https://example.com/path?a=1&b=2")
    );
}

#[test]
fn double_click_selects_file_path_with_line_number() {
    let mut terminal = TerminalState::new(64, 2);

    terminal.process_input(b"open src/main.rs:1480 please");
    terminal.select_word_at(0, 8);

    assert_eq!(
        terminal.copy_selection().as_deref(),
        Some("src/main.rs:1480")
    );
}

#[test]
fn double_click_excludes_wrapping_punctuation() {
    let mut terminal = TerminalState::new(64, 2);

    terminal.process_input(b"(https://example.com/path), next");
    terminal.select_word_at(0, 10);

    assert_eq!(
        terminal.copy_selection().as_deref(),
        Some("https://example.com/path")
    );
}

#[test]
fn double_click_selects_extended_token_across_soft_wraps() {
    let mut terminal = TerminalState::new(12, 6);

    terminal.process_input(b"path=\"/home/yj/projects/jwm/submodules/dioxus_bar/target\"");
    terminal.select_word_at(2, 4);

    assert_eq!(
        terminal.copy_selection().as_deref(),
        Some("/home/yj/projects/jwm/submodules/dioxus_bar/target")
    );

    let selection = terminal.selection.expect("selection should exist");
    let (start, end) = if selection.anchor <= selection.active {
        (selection.anchor, selection.active)
    } else {
        (selection.active, selection.anchor)
    };
    assert!(end.0 > start.0, "test token must span visual rows");
    let viewport_base = terminal.scrollback_len();
    for abs_row in start.0..=end.0 {
        let viewport_row = abs_row - viewport_base;
        assert!(
            terminal.row_selection_cols(viewport_row).is_some(),
            "every selected visual row must expose highlight columns"
        );
    }
}

#[test]
fn alternate_screen_drops_primary_screen_selection() {
    let mut terminal = TerminalState::new(16, 2);
    terminal.process_input(b"selected");
    terminal.select_word_at(0, 2);
    assert!(terminal.selection.is_some());

    terminal.process_input(b"\x1b[?1049h");

    assert!(terminal.selection.is_none());
}

#[test]
fn scrolling_preserves_buffer_anchored_selection() {
    let mut terminal = TerminalState::new(8, 2);
    terminal.process_input(b"one\r\ntwo\r\nthree");
    terminal.select_word_at(0, 1);
    let selection = terminal.selection.expect("selection should exist");
    assert_eq!(terminal.copy_selection().as_deref(), Some("two"));

    terminal.scroll(1);

    assert_eq!(terminal.selection, Some(selection));
    assert_eq!(terminal.copy_selection().as_deref(), Some("two"));
    assert_eq!(terminal.row_selection_cols(1), Some((0, 2)));

    terminal.scroll(-1);

    assert_eq!(terminal.selection, Some(selection));
    assert_eq!(terminal.row_selection_cols(0), Some((0, 2)));
}

#[test]
fn selection_can_extend_after_viewport_scroll() {
    let mut terminal = TerminalState::new(8, 2);
    terminal.process_input(b"one\r\ntwo\r\nthree");
    terminal.start_selection((1, 4));
    assert_eq!(terminal.selection.unwrap().anchor, (2, 4));

    terminal.scroll(1);
    terminal.update_selection((0, 0));

    let selection = terminal
        .selection
        .expect("selection should survive scrolling");
    assert_eq!(selection.anchor, (2, 4));
    assert_eq!(selection.active, (0, 0));
    assert_eq!(terminal.row_selection_cols(0), Some((0, usize::MAX)));
    assert_eq!(terminal.row_selection_cols(1), Some((0, usize::MAX)));
    let copied = terminal.copy_selection();

    terminal.scroll(-1);

    assert_eq!(terminal.selection, Some(selection));
    assert_eq!(terminal.copy_selection(), copied);
    assert_eq!(terminal.row_selection_cols(0), Some((0, usize::MAX)));
    assert_eq!(terminal.row_selection_cols(1), Some((0, 4)));
}

#[test]
fn triple_click_selects_visual_line_without_padding() {
    let mut terminal = TerminalState::new(16, 2);

    terminal.process_input(b"hello line");
    terminal.select_line_at(0);

    assert_eq!(terminal.copy_selection().as_deref(), Some("hello line"));
}

#[test]
fn bracketed_paste_mode_is_tracked() {
    let mut terminal = TerminalState::new(8, 2);

    terminal.process_input(b"\x1b[?2004h");
    assert!(terminal.is_bracketed_paste_enabled());

    terminal.process_input(b"\x1b[?2004l");
    assert!(!terminal.is_bracketed_paste_enabled());
}
