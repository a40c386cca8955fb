//! What mouse reports say of the button and of the place.

use vstd::prelude::*;

use crate::commands::decimal_text;
use crate::reports::ascii_bytes;
use crate::state::TerminalState;

verus! {

/// A report of a button that goes down, in the one-byte encoding, has six bytes:
/// the button behind 32, then the column and the row, both counted from one
/// behind 32. What lies beyond the last countable place is reported as 255.
pub proof fn press_reports_place_and_button(
    state: TerminalState,
    button: u8,
    col: usize,
    row: usize,
    report: Option<Vec<u8>>,
)
    requires
        call_ensures(TerminalState::get_mouse_report, (&state, button, col, row), report),
        !state.modes.has(1006),
    ensures
        report is Some <==> state.modes.has(1000) || state.modes.has(1002) || state.modes.has(1003),
        report matches Some(bytes) ==> {
            &&& bytes@.len() == 6
            &&& bytes@[0] == 0x1b && bytes@[1] == 0x5b && bytes@[2] == 0x4d
            &&& button <= 223 ==> bytes@[3] - 32 == button
            &&& button > 223 ==> bytes@[3] == 255
            &&& col < 223 ==> bytes@[4] - 33 == col
            &&& col >= 223 ==> bytes@[4] == 255
            &&& row < 223 ==> bytes@[5] - 33 == row
            &&& row >= 223 ==> bytes@[5] == 255
        },
{
}

/// A report of a button that goes up, in the one-byte encoding, tells no button,
/// and the place as that of a button that goes down does.
pub proof fn release_reports_place(
    state: TerminalState,
    button: u8,
    col: usize,
    row: usize,
    report: Option<Vec<u8>>,
)
    requires
        call_ensures(TerminalState::get_mouse_release_report, (&state, button, col, row), report),
        !state.modes.has(1006),
    ensures
        report is Some <==> state.modes.has(1000) || state.modes.has(1002) || state.modes.has(1003),
        report matches Some(bytes) ==> {
            &&& bytes@.len() == 6
            &&& bytes@[0] == 0x1b && bytes@[1] == 0x5b && bytes@[2] == 0x4d
            &&& bytes@[3] == 35
            &&& col < 223 ==> bytes@[4] - 33 == col
            &&& col >= 223 ==> bytes@[4] == 255
            &&& row < 223 ==> bytes@[5] - 33 == row
            &&& row >= 223 ==> bytes@[5] == 255
        },
{
}

/// The bytes of a report in the decimal encoding: behind the introducer stand the
/// button, the column and the row in decimal, with semicolons between them, and
/// the last byte.
pub open spec fn spells_report(bytes: Seq<u8>, button: int, x: int, y: int, last: u8) -> bool {
    let b = decimal_text(button as nat);
    let c = decimal_text(x as nat);
    let r = decimal_text(y as nat);
    let second = 3 + b.len();
    let third = second + 1 + c.len();
    let end = third + 1 + r.len();
    &&& bytes.len() == end + 1
    &&& bytes[0] == 0x1b && bytes[1] == 0x5b && bytes[2] == 0x3c
    &&& forall|i: int| 0 <= i < b.len() ==> bytes[3 + i] == #[trigger] b[i] as u8
    &&& bytes[second as int] == 0x3b
    &&& forall|i: int| 0 <= i < c.len() ==> bytes[second + 1 + i] == #[trigger] c[i] as u8
    &&& bytes[third as int] == 0x3b
    &&& forall|i: int| 0 <= i < r.len() ==> bytes[third + 1 + i] == #[trigger] r[i] as u8
    &&& bytes[end as int] == last
}

/// In the decimal encoding a report tells the button, the column and the row, both
/// counted from one, and ends with `M` for a button that goes down and with `m`
/// for one that goes up.
pub proof fn decimal_reports_tell_button_and_place(
    state: TerminalState,
    button: u8,
    col: usize,
    row: usize,
    press: Option<Vec<u8>>,
    release: Option<Vec<u8>>,
)
    requires
        call_ensures(TerminalState::get_mouse_report, (&state, button, col, row), press),
        call_ensures(
            TerminalState::get_mouse_release_report,
            (&state, button, col, row),
            release,
        ),
        state.modes.has(1006),
        col < usize::MAX,
        row < usize::MAX,
    ensures
        press is Some <==> state.modes.has(1000) || state.modes.has(1002) || state.modes.has(1003),
        press is Some <==> release is Some,
        press matches Some(bytes) ==> spells_report(
            bytes@,
            button as int,
            col + 1,
            row + 1,
            'M' as u8,
        ),
        release matches Some(bytes) ==> spells_report(
            bytes@,
            button as int,
            col + 1,
            row + 1,
            'm' as u8,
        ),
{
    reveal_strlit("\x1b[<");
    reveal_strlit(";");
    reveal_strlit("M");
    reveal_strlit("m");
    if press is Some {
        lemma_spelled(button, col, row, "M"@, 'M');
        lemma_spelled(button, col, row, "m"@, 'm');
    }
}

/// What a decimal report spells.
proof fn lemma_spelled(button: u8, col: usize, row: usize, last: Seq<char>, end: char)
    requires
        last.len() == 1,
        last[0] == end,
        end == 'M' || end == 'm',
        col < usize::MAX,
        row < usize::MAX,
    ensures
        spells_report(
            crate::queries::decimal_report(button, col, row, last),
            button as int,
            col + 1,
            row + 1,
            end as u8,
        ),
{
    reveal_strlit("\x1b[<");
    reveal_strlit(";");
    let b = decimal_text(button as nat);
    let c = decimal_text((col + 1) as nat);
    let r = decimal_text((row + 1) as nat);
    let text = "\x1b[<"@ + b + ";"@ + c + ";"@ + r + last;
    let bytes = crate::queries::decimal_report(button, col, row, last);
    assert(bytes == ascii_bytes(text));
    let second = 3 + b.len();
    let third = second + 1 + c.len();
    assert forall|i: int| 0 <= i < b.len() implies bytes[3 + i] == #[trigger] b[i] as u8 by {
        assert(text[3 + i] == b[i]);
    }
    assert forall|i: int| 0 <= i < c.len() implies bytes[second + 1 + i] == #[trigger] c[i]
        as u8 by {
        assert(text[second + 1 + i] == c[i]);
    }
    assert forall|i: int| 0 <= i < r.len() implies bytes[third + 1 + i] == #[trigger] r[i] as u8 by {
        assert(text[third + 1 + i] == r[i]);
    }
}

} // verus!
