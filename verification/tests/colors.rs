use ember_terminal::state::TerminalState;

#[test]
fn osc_4_sets_queries_and_resets_palette_entries() {
    let mut terminal = TerminalState::new(8, 2);

    terminal.process_input(b"\x1b]4;1;#ff0000;2;rgb:00/ff/00\x1b\\");
    assert_eq!(terminal.host.dynamic_palette[1], Some((255, 0, 0)));
    assert_eq!(terminal.host.dynamic_palette[2], Some((0, 255, 0)));

    std::mem::take(&mut terminal.host.output_buffer);
    terminal.process_input(b"\x1b]4;1;?\x1b\\");
    let response = std::mem::take(&mut terminal.host.output_buffer);
    assert_eq!(
        String::from_utf8_lossy(&response),
        "\x1b]4;1;rgb:ffff/0000/0000\x1b\\"
    );
    terminal.process_input(b"\x1b]4;231;?\x1b\\");
    let response = std::mem::take(&mut terminal.host.output_buffer);
    assert_eq!(
        String::from_utf8_lossy(&response),
        "\x1b]4;231;rgb:ffff/ffff/ffff\x1b\\"
    );

    terminal.process_input(b"\x1b]104;1\x1b\\");
    assert_eq!(terminal.host.dynamic_palette[1], None);
    assert_eq!(terminal.host.dynamic_palette[2], Some((0, 255, 0)));
    terminal.process_input(b"\x1b]104\x1b\\");
    assert!(terminal.host.dynamic_palette.iter().all(|slot| slot.is_none()));
}

#[test]
fn osc_110_to_112_reset_dynamic_colors() {
    let mut terminal = TerminalState::new(8, 2);
    terminal.process_input(b"\x1b]10;#010203\x1b\\");
    terminal.process_input(b"\x1b]11;#040506\x1b\\");
    terminal.process_input(b"\x1b]12;#070809\x1b\\");
    assert_eq!(terminal.host.dynamic_fg, Some((1, 2, 3)));
    assert_eq!(terminal.host.dynamic_bg, Some((4, 5, 6)));
    assert_eq!(terminal.host.dynamic_cursor_color, Some((7, 8, 9)));

    terminal.process_input(b"\x1b]110\x1b\\");
    terminal.process_input(b"\x1b]111\x1b\\");
    terminal.process_input(b"\x1b]112\x1b\\");
    assert_eq!(terminal.host.dynamic_fg, None);
    assert_eq!(terminal.host.dynamic_bg, None);
    assert_eq!(terminal.host.dynamic_cursor_color, None);
}
