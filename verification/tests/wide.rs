use ember_terminal::state::TerminalState;

fn rendered_row(terminal: &TerminalState, row: usize) -> String {
    terminal.grid.rows[row].cells
        .iter()
        .map(|cell| {
            if cell.flags.wide_continuation() {
                ' '
            } else {
                cell.character
            }
        })
        .collect::<String>()
        .trim_end()
        .to_string()
}

fn wide_pairing_violation(terminal: &TerminalState) -> Option<String> {
    let (rows, cols) = (terminal.grid.rows(), terminal.grid.row_len());
    for row in 0..rows {
        for col in 0..cols {
            let cell = terminal.grid.rows[row].cells[col];
            if cell.flags.wide()
                && (col + 1 >= cols || !terminal.grid.rows[row].cells[col + 1].flags.wide_continuation())
            {
                return Some(format!(
                    "row {row} col {col}: wide {:?} alone",
                    cell.character
                ));
            }
            if cell.flags.wide_continuation()
                && (col == 0 || !terminal.grid.rows[row].cells[col - 1].flags.wide())
            {
                return Some(format!(
                    "row {row} col {col}: continuation alone, holding {:?}",
                    cell.character
                ));
            }
        }
    }
    None
}

#[test]
fn ascii_typed_over_a_wide_character_is_not_erased_by_the_next_write() {
    let mut terminal = TerminalState::new(8, 1);
    terminal.process_input("好".as_bytes());
    terminal.process_input("\x1b[1Ga好".as_bytes());

    assert_eq!(rendered_row(&terminal, 0), "a好");
    assert_eq!(wide_pairing_violation(&terminal), None);
}

#[test]
fn ascii_typed_over_a_continuation_cell_clears_the_stranded_lead() {
    let mut terminal = TerminalState::new(8, 1);
    terminal.process_input("好".as_bytes());
    terminal.process_input(b"\x1b[2Gab");

    assert!(!terminal.grid.rows[0].cells[0].flags.wide());
    assert_eq!(rendered_row(&terminal, 0), " ab");
    assert_eq!(wide_pairing_violation(&terminal), None);
}

#[test]
fn a_wide_character_landing_on_a_wide_lead_clears_the_stranded_continuation() {
    let mut terminal = TerminalState::new(8, 1);
    terminal.process_input(b"\x1b[4G");
    terminal.process_input("好".as_bytes());
    terminal.process_input(b"\x1b[3G");
    terminal.process_input("的".as_bytes());

    assert!(!terminal.grid.rows[0].cells[4].flags.wide_continuation());
    assert_eq!(wide_pairing_violation(&terminal), None);
}

#[test]
fn deleting_half_a_wide_character_takes_the_other_half() {
    let mut terminal = TerminalState::new(8, 1);
    terminal.process_input("ab好cd".as_bytes());
    terminal.process_input(b"\x1b[3G\x1b[1P");
    assert_eq!(wide_pairing_violation(&terminal), None);

    terminal.process_input("\x1b[3G好".as_bytes());
    assert_eq!(rendered_row(&terminal, 0), "ab好 d");
    assert_eq!(wide_pairing_violation(&terminal), None);
}

#[test]
fn inserting_inside_a_wide_character_clears_both_halves() {
    let mut terminal = TerminalState::new(8, 1);
    terminal.process_input("a好b".as_bytes());
    terminal.process_input(b"\x1b[3G\x1b[1@");

    assert!(!terminal.grid.rows[0].cells[1].flags.wide());
    assert_eq!(rendered_row(&terminal, 0), "a   b");
    assert_eq!(wide_pairing_violation(&terminal), None);
}

#[test]
fn narrowing_past_a_wide_character_clears_its_lead_half() {
    let mut terminal = TerminalState::new(6, 1);
    terminal.process_input("a好".as_bytes());
    assert!(terminal.grid.rows[0].cells[1].flags.wide());

    terminal.on_resize(2, 1);

    assert!(!terminal.grid.rows[0].cells[1].flags.wide());
    assert_eq!(wide_pairing_violation(&terminal), None);
}

#[test]
fn wide_pairing_survives_random_in_place_redraws() {
    let cols: usize = 10;
    let rows: usize = 3;
    let cjk = ['的', '好', '起'];
    let ascii = ["a", "bc", "rep", "x"];

    for seed in 1..3000u64 {
        let mut rng = seed | 1;
        let mut next = move |n: u64| {
            rng ^= rng << 13;
            rng ^= rng >> 7;
            rng ^= rng << 17;
            rng % n
        };
        let mut terminal = TerminalState::new(cols, rows);
        let mut log = Vec::new();
        for _ in 0..14 {
            let op = match next(12) {
                0 | 1 => cjk[next(3) as usize].to_string(),
                2 | 3 => ascii[next(4) as usize].to_string(),
                4 => format!("\x1b[{}G", next(cols as u64) + 1),
                5 => format!("\x1b[{}K", next(3)),
                6 => format!("\x1b[{}X", next(3) + 1),
                7 => format!("\x1b[{}@", next(3) + 1),
                8 => format!("\x1b[{}P", next(3) + 1),
                9 => ["\x1b[4h", "\x1b[4l", "\r\n", "\x1b[H"][next(4) as usize].to_string(),
                10 => format!("resize:{}x{}", next(6) + 4, next(3) + 1),
                _ => format!("\x1b[{}C", next(3) + 1),
            };
            log.push(op.clone());
            match op.strip_prefix("resize:") {
                Some(dims) => {
                    let (cols, rows) = dims.split_once('x').expect("resize op shape");
                    terminal.on_resize(cols.parse().expect("cols"), rows.parse().expect("rows"));
                }
                None => terminal.process_input(op.as_bytes()),
            }
            if let Some(violation) = wide_pairing_violation(&terminal) {
                panic!("{violation} after {log:?}");
            }
        }
    }
}
