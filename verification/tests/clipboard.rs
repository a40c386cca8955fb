use ember_terminal::clipboard::ClipboardReadKind;
use ember_terminal::clipboard::ClipboardReadRequest;
use ember_terminal::state::TerminalState;
use base64::Engine;

fn paste_token_from_event(event: &[u8]) -> String {
    let event = std::str::from_utf8(event).expect("paste event must be UTF-8");
    let encoded = event
        .split_once(":pw=")
        .and_then(|(_, rest)| rest.split('\x1b').next())
        .expect("paste event must include pw metadata");
    let bytes = base64::engine::general_purpose::STANDARD
        .decode(encoded)
        .expect("pw must be valid base64");
    String::from_utf8(bytes).expect("pw must be UTF-8")
}

fn osc_5522_mime_read(mime: &str, token: &str, name: &str) -> Vec<u8> {
    let engine = base64::engine::general_purpose::STANDARD;
    let encoded_mime = engine.encode(mime.as_bytes());
    let encoded_token = engine.encode(token.as_bytes());
    let encoded_name = engine.encode(name.as_bytes());
    format!("\x1b]5522;type=read:pw={encoded_token}:name={encoded_name};{encoded_mime}\x1b\\")
        .into_bytes()
}

#[test]
fn osc_5522_mime_list_request_without_user_paste_is_denied() {
    let mut terminal = TerminalState::new(8, 2);

    terminal.process_input(b"\x1b]5522;type=read;Lg==\x1b\\");

    assert!(terminal.take_clipboard_read_requests().is_empty());
    assert!(terminal.host.pending_paste_grant.is_none());
    assert_eq!(
        String::from_utf8(terminal.get_output()).unwrap(),
        "\x1b]5522;type=read:status=EPERM\x1b\\"
    );
}

#[test]
fn osc_5522_data_read_without_user_paste_is_denied() {
    let mut terminal = TerminalState::new(8, 2);
    let request = osc_5522_mime_read("text/plain", "guessed-token", "Paste event");

    terminal.process_input(&request);

    assert!(terminal.take_clipboard_read_requests().is_empty());
    assert_eq!(
        String::from_utf8(terminal.get_output()).unwrap(),
        "\x1b]5522;type=read:status=EPERM\x1b\\"
    );
}

#[test]
fn osc_5522_paste_grant_is_mode_bound_and_single_use() {
    let mut terminal = TerminalState::new(8, 2);
    assert!(terminal
        .build_paste_event(&["text/plain".to_string()])
        .is_empty());

    terminal.process_input(b"\x1b[?5522h");
    let event = terminal.build_paste_event(&["text/plain".to_string()]);
    let event_text = String::from_utf8(event.clone()).unwrap();
    assert!(event_text.contains(":pw="));
    assert!(!event_text.contains(":password="));
    let token = paste_token_from_event(&event);
    let request = osc_5522_mime_read("text/plain", &token, "Paste event");

    terminal.process_input(&request);
    assert_eq!(
        terminal.take_clipboard_read_requests(),
        vec![ClipboardReadRequest {
            kind: ClipboardReadKind::MimeData("text/plain".to_string()),
        }]
    );

    terminal.process_input(&request);
    assert!(terminal.take_clipboard_read_requests().is_empty());
    assert_eq!(
        String::from_utf8(terminal.get_output()).unwrap(),
        "\x1b]5522;type=read:status=EPERM\x1b\\"
    );
}

#[test]
fn osc_5522_paste_grant_rejects_wrong_name_and_unoffered_mime() {
    let mut terminal = TerminalState::new(8, 2);
    terminal.process_input(b"\x1b[?5522h");
    let event = terminal.build_paste_event(&["text/plain".to_string()]);
    let token = paste_token_from_event(&event);

    terminal.process_input(&osc_5522_mime_read("text/plain", &token, "Other app"));
    assert!(terminal.take_clipboard_read_requests().is_empty());
    assert!(String::from_utf8(terminal.get_output())
        .unwrap()
        .contains("status=EPERM"));

    terminal.process_input(&osc_5522_mime_read(
        "application/octet-stream",
        &token,
        "Paste event",
    ));
    assert!(terminal.take_clipboard_read_requests().is_empty());
    assert!(terminal.host.pending_paste_grant.is_none());

    terminal.process_input(&osc_5522_mime_read("text/plain", &token, "Paste event"));
    assert!(terminal.take_clipboard_read_requests().is_empty());
}

#[test]
fn osc_5522_paste_grant_expires_and_is_revoked_with_mode() {
    let mut terminal = TerminalState::new(8, 2);
    terminal.process_input(b"\x1b[?5522h");
    let event = terminal.build_paste_event(&["text/plain".to_string()]);
    let token = paste_token_from_event(&event);
    terminal.host.pending_paste_grant.as_mut().unwrap().expires_at_ns = 0;

    terminal.process_input(&osc_5522_mime_read("text/plain", &token, "Paste event"));
    assert!(terminal.take_clipboard_read_requests().is_empty());
    assert!(terminal.host.pending_paste_grant.is_none());

    let event = terminal.build_paste_event(&["text/plain".to_string()]);
    let token = paste_token_from_event(&event);
    terminal.process_input(b"\x1b[?5522l");
    terminal.process_input(&osc_5522_mime_read("text/plain", &token, "Paste event"));
    assert!(terminal.take_clipboard_read_requests().is_empty());
    assert!(terminal.host.pending_paste_grant.is_none());
}

#[test]
fn osc_5522_new_user_paste_invalidates_the_previous_token() {
    let mut terminal = TerminalState::new(8, 2);
    terminal.process_input(b"\x1b[?5522h");
    let old_event = terminal.build_paste_event(&["text/plain".to_string()]);
    let old_token = paste_token_from_event(&old_event);
    let new_event = terminal.build_paste_event(&["image/png".to_string()]);
    let new_token = paste_token_from_event(&new_event);
    assert_ne!(old_token, new_token);

    terminal.process_input(&osc_5522_mime_read("text/plain", &old_token, "Paste event"));
    assert!(terminal.take_clipboard_read_requests().is_empty());

    terminal.process_input(&osc_5522_mime_read("image/png", &new_token, "Paste event"));
    assert_eq!(
        terminal.take_clipboard_read_requests(),
        vec![ClipboardReadRequest {
            kind: ClipboardReadKind::MimeData("image/png".to_string()),
        }]
    );
}

#[test]
fn decrqm_reports_5522_support() {
    let mut terminal = TerminalState::new(8, 2);

    terminal.process_input(b"\x1b[?5522$p");

    assert_eq!(
        String::from_utf8(terminal.get_output()).unwrap(),
        "\x1b[?5522;2$y"
    );
}
