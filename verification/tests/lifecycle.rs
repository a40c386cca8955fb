use ember_terminal::host::MAX_NOTIFICATION_CHARS;
use ember_terminal::host::MAX_OSC7_URI_BYTES;
use ember_terminal::host::MAX_WINDOW_TITLE_CHARS;
use ember_terminal::osc133::MAX_OSC_133_COMMAND_BYTES;
use ember_terminal::osc133::MAX_OSC_133_CWD_BYTES;
use ember_terminal::osc133::MAX_OSC_133_ID_BYTES;
use ember_terminal::osc133::MAX_OSC_133_SESSION_ID_BYTES;
use ember_terminal::state::TerminalState;

fn jsh_start_packet(id: &str) -> Vec<u8> {
    format!(
        "\x1b]133;C;id={id};session_id=probe-session-1;seq=7;\
         started_at_ms=1788571993465;cmdline_url=echo%20hello-journal;\
         cwd_url=%2Fhome%2Fyj%2Fprojects%2Fjsh\x07"
    )
    .into_bytes()
}

#[test]
fn osc_133_start_identity_is_read_only_from_the_c_mark() {
    let mut terminal = TerminalState::new(40, 6);
    terminal.process_input(b"\x1b]133;A\x07$ ");
    terminal.process_input(&jsh_start_packet("jsh-b8c6f0d1-1"));
    terminal.process_input(b"hello-journal\r\n");
    terminal.process_input(
        b"\x1b]133;D;0;id=jsh-b8c6f0d1-1;session_id=attacker;seq=99;\
          started_at_ms=1;duration_ms=0;cwd_url=%2Fhome%2Fyj%2Fprojects%2Fjsh\x07",
    );

    let record = terminal
        .command_record("jsh-b8c6f0d1-1")
        .expect("shell-named record");
    assert_eq!(record.session_id.as_deref(), Some("probe-session-1"));
    assert_eq!(record.seq, Some(7));
    assert_eq!(record.started_at_ms, Some(1_788_571_993_465));

    let events = terminal.take_completed_command_events();
    assert_eq!(events.len(), 1);
    assert_eq!(events[0].completed.session_id.as_deref(), Some("probe-session-1"));
    assert_eq!(events[0].completed.seq, Some(7));
    assert_eq!(events[0].completed.started_at_ms, Some(1_788_571_993_465));

    let mut d_only = TerminalState::new(40, 6);
    d_only.process_input(b"\x1b]133;A\x07$ \x1b]133;C;id=jsh-d-only-1\x07");
    d_only.process_input(
        b"\x1b]133;D;0;id=jsh-d-only-1;session_id=probe-session-1;seq=7;\
          started_at_ms=1788571993465\x07",
    );
    let record = d_only
        .command_record("jsh-d-only-1")
        .expect("shell-named record");
    assert_eq!(record.session_id, None);
    assert_eq!(record.seq, None);
    assert_eq!(record.started_at_ms, None);
}

#[test]
fn a_repeated_c_mark_cannot_rebind_an_observed_start_identity() {
    let mut terminal = TerminalState::new(40, 6);
    terminal.process_input(b"\x1b]133;A\x07$ ");
    terminal.process_input(&jsh_start_packet("jsh-b8c6f0d1-1"));
    terminal.process_input(
        b"\x1b]133;C;id=jsh-b8c6f0d1-1;session_id=other-session;seq=99;\
          started_at_ms=2\x07",
    );

    let record = terminal
        .command_record("jsh-b8c6f0d1-1")
        .expect("shell-named record");
    assert_eq!(record.session_id.as_deref(), Some("probe-session-1"));
    assert_eq!(record.seq, Some(7));
    assert_eq!(record.started_at_ms, Some(1_788_571_993_465));
}

#[test]
fn a_repeated_truncation_disclosure_cannot_re_enable_replay() {
    for payload in [
        &b"\x1b]133;C;id=trunc;cmd_truncated=1;cmd_truncated=0\x07"[..],
        &b"\x1b]133;C;id=trunc;cmd_truncated=1;command_truncated=0\x07"[..],
        &b"\x1b]133;C;id=trunc;command_truncated=0;cmd_truncated=1\x07"[..],
    ] {
        let mut terminal = TerminalState::new(24, 4);
        terminal.process_input(b"\x1b]133;A\x07$ ");
        terminal.process_input(payload);
        let record = terminal.command_record("trunc").expect("record");
        assert!(record.command_truncated, "{payload:?}");
        assert!(record.command.is_none(), "{payload:?}");
        assert!(!record.command_exact, "{payload:?}");
    }
}

#[test]
fn an_unknown_truncation_value_fails_closed_and_a_and_b_honour_the_disclosure() {
    let mut unknown = TerminalState::new(24, 4);
    unknown.process_input(b"\x1b]133;A\x07$ \x1b]133;C;id=u;cmd_truncated=maybe\x07");
    let record = unknown.command_record("u").expect("record");
    assert!(record.command_truncated);
    assert!(!record.command_exact);

    for mark in ["A", "B"] {
        let mut terminal = TerminalState::new(24, 4);
        terminal.process_input(format!("\x1b]133;{mark};cmd_truncated=1\x07").as_bytes());
        terminal.process_input(b"\x1b]133;C;id=late\x07");
        let record = terminal.command_record("late").expect("record");
        assert!(record.command_truncated, "mark {mark}");
        assert!(record.command.is_none(), "mark {mark}");
        assert!(!record.command_exact, "mark {mark}");
    }

    let mut complete = TerminalState::new(24, 4);
    complete.process_input(
        b"\x1b]133;A\x07$ \x1b]133;C;id=ok;cmd_truncated=0;cmdline_url=echo%20hi\x07",
    );
    let record = complete.command_record("ok").expect("record");
    assert!(!record.command_truncated);
    assert!(record.command_exact);
    assert_eq!(record.command.as_deref(), Some("echo hi"));
}

#[test]
fn a_repeated_osc_133_slot_degrades_to_absent_instead_of_last_wins() {
    let mut ids = TerminalState::new(24, 4);
    ids.process_input(b"\x1b]133;A\x07$ \x1b]133;C;id=first;jsh_id=second\x07");
    assert!(ids.command_record("first").is_none());
    assert!(ids.command_record("second").is_none());
    let record = ids.command_records().back().expect("record");
    assert_eq!(record.id, "local:1", "a repeated id slot names nothing");

    let mut commands = TerminalState::new(24, 4);
    commands.process_input(
        b"\x1b]133;A\x07$ \x1b]133;C;id=c;cmdline_url=echo%20a;command=echo%20b\x07",
    );
    let record = commands.command_record("c").expect("record");
    assert_eq!(record.command, None);
    assert!(!record.command_exact);

    let mut cwds = TerminalState::new(24, 4);
    cwds.process_input(b"\x1b]133;A\x07$ \x1b]133;C;id=w;cwd=%2Fa;cwd_url=%2Fb\x07");
    assert_eq!(cwds.command_record("w").expect("record").cwd, None);

    let mut one_duration = TerminalState::new(24, 4);
    one_duration.process_input(b"\x1b]133;A\x07$ \x1b]133;C;id=d\x07");
    one_duration.process_input(b"\x1b]133;D;0;id=d;duration_ms=5\x07");
    assert_eq!(
        one_duration
            .command_record("d")
            .expect("record")
            .duration_ms,
        Some(5)
    );

    let mut durations = TerminalState::new(24, 4);
    durations.process_input(b"\x1b]133;A\x07$ \x1b]133;C;id=d\x07");
    durations.process_input(b"\x1b]133;D;0;id=d;duration_ms=5;duration=9\x07");
    let reported = durations.command_record("d").expect("record").duration_ms;
    assert!(
        reported != Some(5) && reported != Some(9),
        "a repeated duration slot must not be believed: {reported:?}"
    );
}

#[test]
fn a_second_exit_slot_reports_no_status_rather_than_the_later_one() {
    let cases: [(&[u8], Option<i32>); 5] = [
        (b"\x1b]133;D;1;exit=0\x07", None),
        (b"\x1b]133;D;0;exit=1\x07", None),
        (b"\x1b]133;D;exit=oops;5\x07", None),
        (b"\x1b]133;D;0;exit=oops\x07", None),
        (b"\x1b]133;D;0;some-flag\x07", Some(0)),
    ];
    for (payload, expected) in cases {
        let mut terminal = TerminalState::new(24, 4);
        terminal.process_input(b"\x1b]133;A\x07$ \x1b]133;C;id=x\x07");
        terminal.process_input(payload);
        assert_eq!(
            terminal.command_record("x").expect("record").exit_code,
            expected,
            "{payload:?}"
        );
    }
}

#[test]
fn osc_133_cwd_must_pass_the_shared_journal_validator() {
    let oversized = "x".repeat(MAX_OSC_133_CWD_BYTES + 1);
    let rejected = [
        "%2Ftmp%2F%1bevil".to_owned(),   // an ESC inside the path
        "%2Ftmp%2F%E2%80%AE".to_owned(), // U+202E right-to-left override
        "%2Ftmp%2F%EF%BF%B9".to_owned(), // U+FFF9, invisible in this terminal
        format!("%2F{oversized}"),
        String::new(),
    ];
    for value in rejected {
        let mut start = TerminalState::new(24, 4);
        start.process_input(
            format!("\x1b]133;A\x07$ \x1b]133;C;id=c;cwd_url={value}\x07").as_bytes(),
        );
        assert_eq!(
            start.command_record("c").expect("record").cwd,
            None,
            "cwd_url={value}"
        );

        let mut finish = TerminalState::new(24, 4);
        finish.process_input(b"\x1b]133;A\x07$ \x1b]133;C;id=c\x07");
        finish.process_input(format!("\x1b]133;D;0;id=c;cwd_url={value}\x07").as_bytes());
        assert_eq!(
            finish.command_record("c").expect("record").cwd_after,
            None,
            "cwd_url={value}"
        );
        assert_eq!(finish.current_working_dir, None, "cwd_url={value}");
    }

    let mut accepted = TerminalState::new(24, 4);
    accepted.process_input(
        b"\x1b]133;A\x07$ \x1b]133;C;id=c;cwd_url=%2Fhome%2Fyj%2Fmy%20project%2F%E9%9B%AA\x07",
    );
    assert_eq!(
        accepted.command_record("c").expect("record").cwd.as_deref(),
        Some("/home/yj/my project/雪"),
    );
}

#[test]
fn osc_133_field_budgets_are_the_shared_parsers() {
    assert_eq!(MAX_OSC_133_COMMAND_BYTES, 16 * 1024);
    assert_eq!(MAX_OSC_133_ID_BYTES, 1024);
    assert_eq!(MAX_OSC_133_CWD_BYTES, 4 * 1024);

    let at_limit = "a".repeat(MAX_OSC_133_COMMAND_BYTES);
    let mut exact = TerminalState::new(24, 4);
    exact.process_input(
        format!("\x1b]133;A\x07$ \x1b]133;C;id=c;cmdline_url={at_limit}\x07").as_bytes(),
    );
    let record = exact.command_record("c").expect("record");
    assert_eq!(record.command.as_deref(), Some(at_limit.as_str()));
    assert!(record.command_exact);

    let over_limit = "a".repeat(MAX_OSC_133_COMMAND_BYTES + 1);
    let mut over = TerminalState::new(24, 4);
    over.process_input(
        format!("\x1b]133;A\x07$ \x1b]133;C;id=c;cmdline_url={over_limit}\x07").as_bytes(),
    );
    let record = over.command_record("c").expect("record");
    assert_eq!(record.command, None);
    assert!(record.command_truncated);
    assert!(!record.command_exact);

    let long_id = "i".repeat(MAX_OSC_133_ID_BYTES);
    let mut id_ok = TerminalState::new(24, 4);
    id_ok.process_input(format!("\x1b]133;A\x07$ \x1b]133;C;id={long_id}\x07").as_bytes());
    assert!(id_ok.command_record(&long_id).is_some());

    let too_long_id = "i".repeat(MAX_OSC_133_ID_BYTES + 1);
    let mut id_over = TerminalState::new(24, 4);
    id_over.process_input(format!("\x1b]133;A\x07$ \x1b]133;C;id={too_long_id}\x07").as_bytes());
    assert!(id_over.command_record(&too_long_id).is_none());
}

#[test]
fn an_execution_id_carrying_invisible_text_is_refused() {
    for encoded in ["jsh%E2%80%AE1", "jsh%E2%80%8B1", "jsh%EF%BF%B91"] {
        let mut terminal = TerminalState::new(24, 4);
        terminal.process_input(format!("\x1b]133;A\x07$ \x1b]133;C;id={encoded}\x07").as_bytes());
        let record = terminal.command_records().back().expect("record");
        assert_eq!(record.id, "local:1", "id={encoded}");
    }
}

#[test]
fn a_jsh_session_announce_is_learned_and_a_malformed_one_is_ignored() {
    let mut terminal = TerminalState::new(24, 4);
    assert_eq!(terminal.host.announced_jsh_session_id, None);
    terminal.process_input(b"\x1b]7770;jsh-cbf29ce484222325-1c3a36\x07");
    assert_eq!(
        terminal.host.announced_jsh_session_id.as_deref(),
        Some("jsh-cbf29ce484222325-1c3a36")
    );

    let oversized = "s".repeat(MAX_OSC_133_SESSION_ID_BYTES + 1);
    for hostile in [
        "",
        " jsh-1 ",
        "../other",
        "jsh 1",
        "jsh/1",
        "jsh\u{202e}1",
        oversized.as_str(),
    ] {
        terminal.process_input(format!("\x1b]7770;{hostile}\x07").as_bytes());
        assert_eq!(
            terminal.host.announced_jsh_session_id.as_deref(),
            Some("jsh-cbf29ce484222325-1c3a36"),
            "hostile={hostile:?}"
        );
    }
}

#[test]
fn osc_7_cwd_is_bounded_and_refuses_ambiguous_paths() {
    let mut terminal = TerminalState::new(24, 4);
    terminal.process_input(b"\x1b]7;file:///home/yj/work\x07");
    assert_eq!(
        terminal.current_working_dir.as_deref(),
        Some("/home/yj/work")
    );

    let oversized = "x".repeat(MAX_OSC_133_CWD_BYTES + 1);
    for hostile in [
        format!("file:///{oversized}"),
        format!(
            "file:///{}",
            "%41".repeat(MAX_OSC7_URI_BYTES)
        ),
        "file:///tmp/\u{202e}gnp.exe".to_owned(),
        "file:///tmp/\u{200b}hidden".to_owned(),
        "file:///tmp/%1bevil".to_owned(),
        "file:".to_owned(),
    ] {
        terminal.process_input(b"\x1b]7;file:///home/yj/work\x07");
        terminal.process_input(format!("\x1b]7;{hostile}\x07").as_bytes());
        assert_eq!(terminal.current_working_dir, None, "hostile={hostile:?}");
    }
}

#[test]
fn desktop_notification_fields_leave_the_terminal_sanitised() {
    let app_name = "ember";

    let mut rxvt = TerminalState::new(24, 4);
    rxvt.process_input("\x1b]777;notify;\u{202e}Security Update;\u{202e}approve\u{7}".as_bytes());
    assert_eq!(
        rxvt.host.pending_notifications,
        vec![(
            "\u{fffd}Security Update".to_owned(),
            "\u{fffd}approve".to_owned()
        )]
    );

    let mut iterm = TerminalState::new(24, 4);
    iterm.process_input(b"\x1b]9;build \x07");
    assert_eq!(
        iterm.host.pending_notifications,
        vec![(app_name.to_owned(), "build".to_owned())]
    );

    let mut anonymous = TerminalState::new(24, 4);
    anonymous.process_input(b"\x1b]777;notify;;body\x07");
    assert_eq!(
        anonymous.host.pending_notifications,
        vec![(app_name.to_owned(), "body".to_owned())]
    );

    let mut invisible = TerminalState::new(24, 4);
    invisible.process_input("\x1b]777;notify;\u{200b};body\u{7}".as_bytes());
    assert_eq!(
        invisible.host.pending_notifications,
        vec![("\u{fffd}".to_owned(), "body".to_owned())]
    );

    let mut long = TerminalState::new(24, 4);
    let body = "b".repeat(MAX_NOTIFICATION_CHARS + 32);
    long.process_input(format!("\x1b]9;{body}\x07").as_bytes());
    assert_eq!(
        long.host.pending_notifications[0].1.chars().count(),
        MAX_NOTIFICATION_CHARS
    );
}

#[test]
fn the_window_title_is_bounded_where_it_enters_terminal_state() {
    let mut terminal = TerminalState::new(24, 4);
    let long = "t".repeat(MAX_WINDOW_TITLE_CHARS * 4);
    terminal.process_input(format!("\x1b]2;{long}\x07").as_bytes());
    assert_eq!(
        terminal.host.window_title.chars().count(),
        MAX_WINDOW_TITLE_CHARS
    );

    terminal.process_input(b"\x1b]0;short\x07");
    assert_eq!(terminal.host.window_title, "short");
}
