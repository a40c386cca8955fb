//! What the application is told of the terminal.

use vstd::prelude::*;

use crate::clipboard::is_mime;
use crate::clipboard::sanitized_mimes;
use crate::grid::clamp_terminal_dimensions;
use crate::grid::RawRowId;
use crate::screens::sync_overdue;
use crate::state::TerminalState;

verus! {

/// The mouse is reported where any of the modes 1000, 1002 and 1003 is on; its motion
/// with 1003, and with 1002 while a button is down.
pub proof fn the_mouse_is_reported_where_it_is_asked_for(
    state: TerminalState,
    down: bool,
    enabled: bool,
    motion: bool,
)
    requires
        call_ensures(TerminalState::is_mouse_enabled, (&state,), enabled),
        call_ensures(TerminalState::should_report_mouse_motion, (&state, down), motion),
    ensures
        enabled <==> state.modes.has(1000) || state.modes.has(1002) || state.modes.has(1003),
        state.modes.has(1003) ==> motion,
        state.modes.has(1002) && down ==> motion,
        !state.modes.has(1002) && !state.modes.has(1003) ==> !motion,
        !state.modes.has(1003) && !down ==> !motion,
        motion ==> enabled,
{
}

/// The switches that the application asks for are those of their modes: 2004 for
/// bracketed paste, 1 for the cursor keys, 5522 for announced pastes and 25 for the
/// cursor, which is not shown while the view is scrolled back.
pub proof fn switches_are_those_of_their_modes(
    state: TerminalState,
    bracketed: bool,
    application: bool,
    announced: bool,
    cursor: bool,
    all_keys: bool,
)
    requires
        call_ensures(TerminalState::is_bracketed_paste_enabled, (&state,), bracketed),
        call_ensures(TerminalState::is_application_cursor_keys, (&state,), application),
        call_ensures(TerminalState::is_paste_events_enabled, (&state,), announced),
        call_ensures(TerminalState::is_cursor_visible, (&state,), cursor),
        call_ensures(TerminalState::is_report_all_keys_enabled, (&state,), all_keys),
    ensures
        bracketed <==> state.modes.has(2004),
        application <==> state.modes.has(1),
        announced <==> state.modes.has(5522),
        cursor <==> state.modes.has(25) && state.scroll_offset == 0,
        all_keys <==> state.modes.has(2031) || state.keyboard.enhancement_flags & 8 != 0,
{
}

/// The size is given as columns and rows, the cursor as row and column.
pub proof fn sizes_and_places_are_given_in_order(
    state: TerminalState,
    size: (usize, usize),
    cursor: (usize, usize),
    kept: usize,
    version: u64,
    alternate: bool,
)
    requires
        call_ensures(TerminalState::get_dimensions, (&state,), size),
        call_ensures(TerminalState::get_cursor_pos, (&state,), cursor),
        call_ensures(TerminalState::scrollback_len, (&state,), kept),
        call_ensures(TerminalState::get_grid_version, (&state,), version),
        call_ensures(TerminalState::is_alt_buffer, (&state,), alternate),
    ensures
        size.0 == state.grid.cols,
        size.1 == state.grid@.len(),
        cursor.0 == state.cursor_row,
        cursor.1 == state.cursor_col,
        kept == state.scrollback@.len(),
        version == state.grid_version,
        alternate == state.use_alt_buffer,
{
}

/// A size within one and 1024 columns and one and 512 rows is taken as it is; one
/// beyond is brought to the nearest.
pub proof fn sizes_are_brought_into_range(cols: usize, rows: usize, size: (usize, usize))
    requires
        call_ensures(clamp_terminal_dimensions, (cols, rows), size),
    ensures
        1 <= cols <= 1024 ==> size.0 == cols,
        1 <= rows <= 512 ==> size.1 == rows,
        cols == 0 ==> size.0 == 1,
        rows == 0 ==> size.1 == 1,
        cols > 1024 ==> size.0 == 1024,
        rows > 512 ==> size.1 == 512,
{
}

/// The identity of a row of the document is that of the row of the history or, behind
/// it, of the screen.
pub proof fn rows_have_their_identities(
    state: TerminalState,
    absolute: usize,
    id: Option<RawRowId>,
)
    requires
        state.core_wf(),
        call_ensures(TerminalState::raw_row_id_at_absolute, (&state, absolute), id),
    ensures
        absolute < state.history().len() ==> id == Some(state.history()[absolute as int].id),
        state.history().len() <= absolute < state.history().len() + state.rows() ==> id == Some(
            state.grid@[absolute - state.history().len()].id,
        ),
        absolute >= state.history().len() + state.rows() ==> id is None,
{
}

/// A synchronized update is given up when it has lasted for more than a second, and
/// not before.
pub proof fn updates_are_given_up_after_a_second(state: TerminalState, start: u64, now_ns: u64)
    requires
        state.sync_output_active,
        state.sync_output_start == Some(start),
        now_ns >= start,
    ensures
        now_ns - start > 1_000_000_000 ==> sync_overdue(state, now_ns),
        now_ns - start <= 1_000_000_000 ==> !sync_overdue(state, now_ns),
{
}

/// The kinds of data that a paste offers are those of the list that can be named, each
/// once and in order, as many as there is room for.
pub proof fn offered_kinds_are_those_of_the_list(list: Seq<Seq<char>>)
    ensures
        ({
            let kept = sanitized_mimes(list);
            &&& kept.len() <= 64
            &&& forall|i: int|
                0 <= i < kept.len() ==> list.contains(#[trigger] kept[i]) && is_mime(kept[i])
            &&& forall|i: int, j: int|
                0 <= i < j < kept.len() ==> (#[trigger] kept[i]) != (#[trigger] kept[j])
            &&& kept.len() < 64 ==> forall|i: int|
                0 <= i < list.len() && is_mime(#[trigger] list[i]) ==> kept.contains(list[i])
        }),
    decreases list.len(),
{
    if list.len() > 0 {
        let head = list.drop_last();
        offered_kinds_are_those_of_the_list(head);
        let before = sanitized_mimes(head);
        let kept = sanitized_mimes(list);
        assert forall|i: int| 0 <= i < kept.len() implies list.contains(#[trigger] kept[i])
            && is_mime(kept[i]) by {
            if i < before.len() {
                assert(kept[i] == before[i]);
                let k = choose|k: int| 0 <= k < head.len() && head[k] == before[i];
                assert(list[k] == kept[i]);
            } else {
                assert(list[list.len() - 1] == kept[i]);
            }
        }
        assert forall|i: int, j: int| 0 <= i < j < kept.len() implies (#[trigger] kept[i]) != (
        #[trigger] kept[j]) by {
            assert(kept[i] == before[i]);
            if j < before.len() {
                assert(kept[j] == before[j]);
            } else {
                assert(before.contains(before[i]));
            }
        }
        if kept.len() < 64 {
            assert forall|i: int|
                0 <= i < list.len() && is_mime(#[trigger] list[i]) implies kept.contains(
                list[i],
            ) by {
                if i < head.len() {
                    assert(head[i] == list[i]);
                    let k = choose|k: int| 0 <= k < before.len() && before[k] == list[i];
                    assert(kept[k] == list[i]);
                } else if before.contains(list[i]) {
                    let k = choose|k: int| 0 <= k < before.len() && before[k] == list[i];
                    assert(kept[k] == list[i]);
                } else {
                    assert(kept[kept.len() - 1] == list[i]);
                }
            }
        }
    }
}

} // verus!
