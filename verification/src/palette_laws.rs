//! How colours are told and given up, and how folds are counted.

use vstd::prelude::*;

use crate::colors::rgb_text;
use crate::commands::decimal_text;
use crate::field_laws::numbers_are_read_in_decimal;
use crate::field_laws::texts_without_separators_are_one_field;
use crate::grid::RawRowId;
use crate::host::HostState;
use crate::host::palette_cleared;
use crate::host_laws::lemma_numbers;
use crate::parser::host_commanded;
use crate::print_laws::numbers_are_written_in_decimal;
use crate::projected::restored_offset;
use crate::projected::retained_row;
use crate::projection::ProjectedTopAnchor;
use crate::projection::ProjectionViewState;
use crate::projection::policy_revision_after;
use crate::reports::ascii_bytes;
use crate::state::TerminalState;

verus! {

/// A question for the foreground, the background or the cursor is answered with its
/// colour; where none was set, the background is black and the others are white.
/// Nothing else changes.
pub proof fn dynamic_colours_are_told(
    pre: HostState,
    number: Seq<char>,
    enabled: bool,
    now_ns: u64,
    post: HostState,
)
    requires
        host_commanded(pre, number, seq!['?'], enabled, now_ns, post),
        number == seq!['1', '0'] || number == seq!['1', '1'] || number == seq!['1', '2'],
    ensures
        post == (HostState { output_buffer: post.output_buffer, ..pre }),
        ({
            let set = if number[1] == '0' {
                pre.dynamic_fg
            } else if number[1] == '1' {
                pre.dynamic_bg
            } else {
                pre.dynamic_cursor_color
            };
            let color = match set {
                Some(color) => color,
                None => if number[1] == '1' {
                    (0u8, 0u8, 0u8)
                } else {
                    (255u8, 255u8, 255u8)
                },
            };
            post.output_buffer@ == pre.output_buffer@ + ascii_bytes(
                seq!['\x1b', ']'] + number + seq![';'] + rgb_text(color),
            )
        }),
{
    lemma_numbers();
    reveal_strlit("?");
    reveal_strlit("\x1b]");
    reveal_strlit(";");
    assert("?"@ =~= seq!['?']);
    assert("\x1b]"@ =~= seq!['\x1b', ']']);
    assert(";"@ =~= seq![';']);
    assert(number[0] == '1' && number.len() == 2);
    assert(number != "52"@);
    assert(seq!['1', '0'][1] == '0' && seq!['1', '1'][1] == '1' && seq!['1', '2'][1] == '2');
}

/// Giving palette colours up gives up that with the number, or all where no number is
/// given; the others stay.
pub proof fn palette_colours_are_given_up(
    pre: HostState,
    value: Seq<char>,
    index: nat,
    enabled: bool,
    now_ns: u64,
    post: HostState,
    i: int,
)
    requires
        host_commanded(pre, seq!['1', '0', '4'], value, enabled, now_ns, post),
        pre.dynamic_palette@.len() == 256,
        index < 256,
        0 <= i < 256,
    ensures
        post == (HostState { dynamic_palette: post.dynamic_palette, ..pre }),
        value.len() == 0 ==> post.dynamic_palette@.len() == 256 && post.dynamic_palette@[i] is None,
        value == decimal_text(index) ==> post.dynamic_palette@.len() == 256
            && post.dynamic_palette@[i] == if i == index {
            None
        } else {
            pre.dynamic_palette@[i]
        },
{
    lemma_numbers();
    let number = seq!['1', '0', '4'];
    assert(number.len() == 3 && number[0] == '1' && number[1] == '0');
    if value == decimal_text(index) {
        numbers_are_written_in_decimal(index);
        numbers_are_read_in_decimal(value);
        assert('0' <= value[0] <= '9');
        assert forall|k: int| 0 <= k < value.len() implies #[trigger] value[k] != ';' by {
            assert('0' <= decimal_text(index)[k] <= '9');
        }
        texts_without_separators_are_one_field(value, ';');
        let cleared = pre.dynamic_palette@.update(index as int, None);
        assert(palette_cleared(cleared, seq![value], 1) == cleared);
        assert(seq![value][0] == value);
        assert(palette_cleared(pre.dynamic_palette@, seq![value], 0) == cleared);
    }
}

/// A change of what is folded gives another version, and never version zero.
pub proof fn changes_have_new_versions(revision: u64)
    ensures
        policy_revision_after(revision) != 0,
        revision < u64::MAX ==> policy_revision_after(revision) == revision + 1,
        revision > 1 ==> policy_revision_after(revision) != revision,
{
}

/// A reader of a folded document goes on where they were: at the bottom, where they
/// followed it, or with the row that was at the top at the top again. Where that row is
/// on the screen, or is no longer there, they see the screen, or stay.
pub proof fn readers_go_on_where_they_were(
    state: TerminalState,
    view: ProjectionViewState,
    id: RawRowId,
    row: int,
)
    requires
        state.core_wf(),
    ensures
        view.follow_bottom ==> restored_offset(state, view) == 0,
        !view.follow_bottom && view.top_anchor is None ==> restored_offset(state, view)
            == state.scroll_offset,
        !view.follow_bottom && view.top_anchor == Some(ProjectedTopAnchor::RawRow(id))
            && retained_row(state, id) == Some(row) && 0 <= row < state.history().len()
            ==> state.history().len() - restored_offset(state, view) == row,
        !view.follow_bottom && view.top_anchor == Some(ProjectedTopAnchor::RawRow(id))
            && retained_row(state, id) == Some(row) && row >= state.history().len()
            ==> restored_offset(state, view) == 0,
        !view.follow_bottom && view.top_anchor == Some(ProjectedTopAnchor::RawRow(id))
            && retained_row(state, id) is None ==> restored_offset(state, view)
            == state.scroll_offset,
{
}

} // verus!
