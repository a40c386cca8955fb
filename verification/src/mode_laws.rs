//! What switches, questions and replies do.

use vstd::prelude::*;

use crate::commands::decimal_text;
use crate::control::csi_performed;
use crate::control::private_mode_set;
use crate::control_laws::chooses;
use crate::control_laws::counts;
use crate::control_laws::is_sequence;
use crate::csi::CsiModel;
use crate::csi::CsiParam;
use crate::keyboard::flags_popped;
use crate::lifecycle::ClockReading;
use crate::modes::modes_are_independent;
use crate::setup::history_limited;
use crate::setup::oldest_row_dropped;
use crate::setup::oldest_rows_dropped;
use crate::setup::smaller;
use crate::grid::CursorShape;
use crate::state::KeyboardState;
use crate::state::TerminalState;

verus! {

/// Whether a command is a control sequence with a private marker that ends with the
/// character `last`.
pub open spec fn is_private(command: CsiModel, marker: char, last: char) -> bool {
    command.marker == Some(marker as u8) && command.intermediate is None && command.last
        == last as u8
}

/// Whether a mode is one of those that are kept: cursor keys, wrapping, the cursor,
/// the ways of reporting the mouse and the focus, bracketed paste, changes of the
/// colour scheme and announced pastes.
pub open spec fn is_kept(mode: int) -> bool {
    mode == 1 || mode == 7 || mode == 25 || mode == 1000 || mode == 1001 || mode == 1002 || mode
        == 1003 || mode == 1004 || mode == 1006 || mode == 2004 || mode == 2031 || mode == 5522
}

/// `CSI ? m h` switches the mode `m` on and `CSI ? m l` off, each by itself, and
/// changes nothing else. A mode that is not kept stays off.
pub proof fn modes_are_switched_by_themselves(
    pre: TerminalState,
    command: CsiModel,
    mode: u16,
    now: ClockReading,
    post: TerminalState,
    other: u16,
)
    requires
        is_private(command, '?', 'h') || is_private(command, '?', 'l'),
        command.params.len() == 1,
        command.params[0].number == mode,
        mode != 6 && mode != 47 && mode != 1047 && mode != 1049 && mode != 2026,
        csi_performed(pre, command, now, post),
    ensures
        post == (TerminalState { modes: post.modes, ..pre }),
        is_kept(mode as int) ==> post.modes.has(mode) == is_private(command, '?', 'h'),
        !is_kept(mode as int) ==> post == pre,
        other != mode ==> post.modes.has(other) == pre.modes.has(other),
{
    let on = is_private(command, '?', 'h');
    let mid = choose|mid: TerminalState|
        {
            &&& #[trigger] private_mode_set(pre, command.params[0].number, on, now, mid)
            &&& crate::control::private_modes_set(mid, command.params, 1, on, now, post)
        };
    assert(private_mode_set(pre, mode, on, now, mid));
    assert(post == mid);
    modes_are_independent(pre.modes, mode, on, other);
    modes_are_independent(pre.modes, mode, on, mode);
}

/// Modes that are switched by one command are switched one after the other.
pub proof fn modes_are_switched_in_order(
    pre: TerminalState,
    params: Seq<CsiParam>,
    i: int,
    on: bool,
    now: ClockReading,
    post: TerminalState,
) -> (mid: TerminalState)
    requires
        0 <= i < params.len(),
        crate::control::private_modes_set(pre, params, i, on, now, post),
    ensures
        private_mode_set(pre, params[i].number, on, now, mid),
        crate::control::private_modes_set(mid, params, i + 1, on, now, post),
{
    choose|mid: TerminalState|
        {
            &&& #[trigger] private_mode_set(pre, params[i].number, on, now, mid)
            &&& crate::control::private_modes_set(mid, params, i + 1, on, now, post)
        }
}

/// `CSI 4 h` switches insert mode on and `CSI 4 l` off; other numbers change
/// nothing.
pub proof fn insert_mode_is_switched(
    pre: TerminalState,
    command: CsiModel,
    mode: int,
    now: ClockReading,
    post: TerminalState,
)
    requires
        is_sequence(command, 'h') || is_sequence(command, 'l'),
        command.params.len() == 1,
        command.params[0].number == mode,
        csi_performed(pre, command, now, post),
    ensures
        mode == 4 ==> post == (TerminalState { insert_mode: is_sequence(command, 'h'), ..pre }),
        mode != 4 ==> post == pre,
{
    if mode == 4 {
        assert(command.params[0].number == 4);
    }
}

/// Whether the replies got the bytes of `text` behind them, and nothing else
/// changed.
pub open spec fn is_answered(pre: TerminalState, text: Seq<char>, post: TerminalState) -> bool {
    &&& post.host.output_buffer@ == pre.host.output_buffer@ + Seq::new(
        text.len(),
        |i: int| text[i] as u8,
    )
    &&& post == TerminalState {
        host: crate::host::HostState {
            output_buffer: post.host.output_buffer,
            ..pre.host
        },
        ..pre
    }
}

/// `CSI 6 n` is answered with the row and the column of the cursor, both counted
/// from one, and in origin mode from the top of the scroll region; `CSI 5 n` with
/// the word that all is well. Other questions are not answered.
pub proof fn questions_for_the_status_are_answered(
    pre: TerminalState,
    command: CsiModel,
    what: int,
    now: ClockReading,
    post: TerminalState,
)
    requires
        pre.core_wf(),
        is_sequence(command, 'n'),
        chooses(command.params, 0, what),
        csi_performed(pre, command, now, post),
    ensures
        what == 5 ==> is_answered(pre, "\x1b[0n"@, post),
        what == 6 ==> is_answered(
            pre,
            "\x1b["@ + decimal_text(
                if pre.origin_mode && pre.cursor_row >= pre.scroll_region_top {
                    (pre.cursor_row - pre.scroll_region_top + 1) as nat
                } else {
                    (pre.cursor_row + 1) as nat
                },
            ) + ";"@ + decimal_text((pre.cursor_col + 1) as nat) + "R"@,
            post,
        ),
        what != 5 && what != 6 ==> post == pre,
{
}

/// `CSI c` is answered with what kind of terminal this is, `CSI > c` with its version
/// and `CSI > q` with its name; a question with another parameter is not answered.
pub proof fn questions_for_the_kind_are_answered(
    pre: TerminalState,
    command: CsiModel,
    now: ClockReading,
    post: TerminalState,
)
    requires
        csi_performed(pre, command, now, post),
    ensures
        is_sequence(command, 'c') && (command.params.len() == 0 || command.params[0].number == 0)
            ==> is_answered(pre, "\x1b[?65;1;9c"@, post),
        is_sequence(command, 'c') && command.params.len() > 0 && command.params[0].number != 0
            ==> post == pre,
        is_private(command, '>', 'c') ==> is_answered(pre, "\x1b[>1;7802;0c"@, post),
        is_private(command, '>', 'q') ==> is_answered(pre, "\x1bP>|VTE(7802)\x1b\\"@, post),
{
}

/// `CSI ? m $ p` asks for a mode and is answered with 1 where it is on, 2 where it is
/// off and 0 where it is not known.
pub proof fn questions_for_modes_are_answered(
    pre: TerminalState,
    command: CsiModel,
    mode: u16,
    now: ClockReading,
    post: TerminalState,
)
    requires
        command.marker == Some('?' as u8),
        command.intermediate == Some('$' as u8),
        command.last == 'p' as u8,
        chooses(command.params, 0, mode as int),
        csi_performed(pre, command, now, post),
    ensures
        is_answered(
            pre,
            "\x1b[?"@ + decimal_text(mode as nat) + ";"@ + (if mode == 6 {
                if pre.origin_mode {
                    "1"@
                } else {
                    "2"@
                }
            } else if !is_kept(mode as int) && mode != 1049 && mode != 2026 {
                "0"@
            } else if pre.modes.has(mode) {
                "1"@
            } else {
                "2"@
            }) + "$y"@,
            post,
        ),
{
}

/// `CSI > f u` puts keyboard flags in force and keeps the old ones, up to
/// thirty-two of them; `CSI < n u` brings back those from `n` commands ago, and
/// none where there are not so many; `CSI = f ; m u` sets, adds or removes flags
/// without keeping any.
pub proof fn keyboard_flags_are_kept_and_restored(
    pre: TerminalState,
    command: CsiModel,
    flags: int,
    now: ClockReading,
    post: TerminalState,
)
    requires
        is_private(command, '>', 'u') || is_private(command, '=', 'u'),
        chooses(command.params, 0, flags),
        csi_performed(pre, command, now, post),
    ensures
        post == (TerminalState { keyboard: post.keyboard, ..pre }),
        is_private(command, '>', 'u') ==> {
            let before = pre.keyboard.enhancement_stack@;
            let after = post.keyboard.enhancement_stack@;
            &&& post.keyboard.enhancement_flags == flags
            &&& after.len() > 0 && after.last() == pre.keyboard.enhancement_flags
            &&& before.len() < 32 ==> after == before.push(pre.keyboard.enhancement_flags)
            &&& before.len() >= 32 ==> after.len() == before.len() && after.drop_last()
                == before.drop_first()
        },
        is_private(command, '=', 'u') ==> {
            let mode = if command.params.len() > 1 && command.params[1].number != 0 {
                command.params[1].number as int
            } else {
                1
            };
            let before = pre.keyboard.enhancement_flags;
            &&& post.keyboard.enhancement_stack@ == pre.keyboard.enhancement_stack@
            &&& mode == 1 ==> post.keyboard.enhancement_flags == flags
            &&& mode == 2 ==> post.keyboard.enhancement_flags == before | flags as u16
            &&& mode == 3 ==> post.keyboard.enhancement_flags == before & !(flags as u16)
            &&& mode > 3 ==> post.keyboard.enhancement_flags == before
        },
{
    if is_private(command, '>', 'u') && pre.keyboard.enhancement_stack@.len() >= 32 {
        let before = pre.keyboard.enhancement_stack@;
        assert(before.drop_first().push(pre.keyboard.enhancement_flags).drop_last()
            =~= before.drop_first());
    }
}

/// Bringing keyboard flags back takes as many entries off as are asked for, and the
/// last one taken is in force.
pub proof fn restored_flags_are_the_kept_ones(flags: u16, stack: Seq<u16>, n: int)
    requires
        n >= 1,
    ensures
        n <= stack.len() ==> flags_popped(flags, stack, n) == (
            stack[stack.len() - n],
            stack.take(stack.len() - n),
        ),
        n > stack.len() ==> flags_popped(flags, stack, n) == (0u16, Seq::<u16>::empty()),
    decreases n,
{
    if stack.len() > 0 {
        if n == 1 {
            assert(stack.drop_last() =~= stack.take(stack.len() - 1));
            assert(flags_popped(stack.last(), stack.drop_last(), 0) == (
                stack.last(),
                stack.drop_last(),
            ));
        } else {
            restored_flags_are_the_kept_ones(stack.last(), stack.drop_last(), n - 1);
            if n <= stack.len() {
                assert(stack.drop_last().take(stack.len() - n) =~= stack.take(stack.len() - n));
            }
        }
    } else {
        assert(stack =~= Seq::<u16>::empty());
    }
}

/// `CSI < n u` and `CSI ? u` restore keyboard flags and report them.
pub proof fn keyboard_flags_are_reported(
    pre: TerminalState,
    command: CsiModel,
    n: int,
    now: ClockReading,
    post: TerminalState,
)
    requires
        csi_performed(pre, command, now, post),
        counts(command.params, 0, n),
    ensures
        is_private(command, '<', 'u') ==> (
            post.keyboard.enhancement_flags,
            post.keyboard.enhancement_stack@,
        ) == flags_popped(
            pre.keyboard.enhancement_flags,
            pre.keyboard.enhancement_stack@,
            n,
        ) && post == (TerminalState { keyboard: post.keyboard, ..pre }),
        is_private(command, '?', 'u') ==> is_answered(
            pre,
            "\x1b[?"@ + decimal_text(pre.keyboard.enhancement_flags as nat) + "u"@,
            post,
        ),
{
}

/// `CSI > 4 ; v m` chooses how modified keys are reported and `CSI > 4 ; v f` in
/// which form; without a value it is the initial one.
pub proof fn other_keys_are_chosen(
    pre: TerminalState,
    command: CsiModel,
    value: int,
    now: ClockReading,
    post: TerminalState,
)
    requires
        is_private(command, '>', 'm') || is_private(command, '>', 'f'),
        command.params.len() > 0 ==> command.params[0].number == 4,
        chooses(command.params, 1, value),
        csi_performed(pre, command, now, post),
    ensures
        is_private(command, '>', 'm') ==> post == (TerminalState {
            keyboard: KeyboardState { modify_other_keys: value as u16, ..pre.keyboard },
            ..pre
        }),
        is_private(command, '>', 'f') ==> post == (TerminalState {
            keyboard: KeyboardState { format_other_keys: value as u16, ..pre.keyboard },
            ..pre
        }),
{
}

/// `CSI n SP q` makes the cursor a line below the cell for 3 and 4, a bar for 5 and 6
/// and a block for every other number.
pub proof fn the_cursor_is_shaped(
    pre: TerminalState,
    command: CsiModel,
    n: int,
    now: ClockReading,
    post: TerminalState,
)
    requires
        command.marker is None,
        command.intermediate == Some(' ' as u8),
        command.last == 'q' as u8,
        chooses(command.params, 0, n),
        csi_performed(pre, command, now, post),
    ensures
        post == (TerminalState { cursor_shape: post.cursor_shape, ..pre }),
        n == 3 || n == 4 ==> post.cursor_shape == CursorShape::Underline,
        n == 5 || n == 6 ==> post.cursor_shape == CursorShape::Bar,
        n <= 2 || n > 6 ==> post.cursor_shape == CursorShape::Block,
{
}

/// Dropping the oldest rows leaves the newest.
proof fn lemma_dropped(pre: TerminalState, n: int, post: TerminalState)
    requires
        0 <= n <= pre.history().len(),
        oldest_rows_dropped(pre, n, post),
    ensures
        post.history() == pre.history().skip(n),
        post.grid == pre.grid,
        post.total_lines_scrolled == pre.total_lines_scrolled,
        post.scroll_offset == pre.scroll_offset,
        post.cursor_row == pre.cursor_row,
    decreases n,
{
    if n > 0 {
        let mid = choose|mid: TerminalState| #[trigger]
            oldest_row_dropped(pre, mid) && oldest_rows_dropped(mid, n - 1, post);
        assert(oldest_row_dropped(pre, mid));
        lemma_dropped(mid, n - 1, post);
        assert(mid.history().skip(n - 1) =~= pre.history().skip(n));
    } else {
        assert(pre.history().skip(0) =~= pre.history());
    }
}

/// What a limit on the history leaves.
proof fn lemma_shorter(
    pre: TerminalState,
    limit: int,
    post: TerminalState,
)
    requires
        pre.scroll_offset <= pre.history().len(),
        pre.history().len() <= usize::MAX,
        limit >= 0,
        history_limited(pre, limit, post),
    ensures
        post.max_scrollback == limit,
        pre.history().len() <= limit ==> post.history() == pre.history() && post.scroll_offset
            == pre.scroll_offset,
        pre.history().len() > limit ==> post.history() == pre.history().skip(
            pre.history().len() - limit,
        ),
        post.scroll_offset == pre.scroll_offset || post.scroll_offset == post.history().len(),
        post.scroll_offset <= pre.scroll_offset,
        post.total_lines_scrolled == pre.total_lines_scrolled,
        post.grid == pre.grid,
{
    let keep = smaller(pre.history().len() as int, limit);
    let start = TerminalState {
        scroll_offset: smaller(pre.scroll_offset as int, keep) as usize,
        ..pre
    };
    assert(start.history() == pre.history());
    assert(start.scroll_offset <= pre.scroll_offset);
    let mid = choose|mid: TerminalState|
        {
            &&& #[trigger] oldest_rows_dropped(start, pre.history().len() - keep, mid)
            &&& post.max_scrollback == limit
            &&& post.caches == if keep < pre.history().len() {
                mid.caches.views_dropped()
            } else {
                mid.caches
            }
            &&& post == TerminalState {
                max_scrollback: post.max_scrollback,
                caches: post.caches,
                ..mid
            }
        };
    lemma_dropped(start, pre.history().len() - keep, mid);
    assert(pre.history().skip(0) =~= pre.history());
}

/// A limit on the history keeps its newest rows and numbers them as before; the
/// screen stays, and the view as far as there is history for it.
pub proof fn a_shorter_history_keeps_its_newest_rows(
    pre: TerminalState,
    limit: int,
    post: TerminalState,
)
    requires
        pre.core_wf(),
        limit >= 0,
        history_limited(pre, limit, post),
    ensures
        post.max_scrollback == limit,
        pre.history().len() <= limit ==> post.history() == pre.history() && post.scroll_offset
            == pre.scroll_offset,
        pre.history().len() > limit ==> post.history() == pre.history().skip(
            pre.history().len() - limit,
        ),
        post.scroll_offset == pre.scroll_offset || post.scroll_offset == post.history().len(),
        post.scroll_offset <= pre.scroll_offset,
        post.total_lines_scrolled == pre.total_lines_scrolled,
        post.grid == pre.grid,
{
    assert(pre.history().len() == pre.scrollback@.len());
    lemma_shorter(pre, limit, post);
}

/// `CSI 22 ; w t` keeps titles and `CSI 23 ; w t` brings them back: that of the icon for
/// 1, that of the window for 2 and both for 0. What was kept last comes back first.
pub proof fn kept_titles_come_back(
    pre: TerminalState,
    keep: CsiModel,
    kept: TerminalState,
    later: TerminalState,
    restore: CsiModel,
    which: int,
    now: ClockReading,
    post: TerminalState,
)
    requires
        pre.host.title_stack@.len() < 16,
        is_sequence(keep, 't') && chooses(keep.params, 0, 22) && chooses(keep.params, 1, which),
        csi_performed(pre, keep, now, kept),
        later.host.title_stack@ == kept.host.title_stack@,
        is_sequence(restore, 't') && chooses(restore.params, 0, 23) && chooses(
            restore.params,
            1,
            which,
        ),
        0 <= which <= 2,
        csi_performed(later, restore, now, post),
    ensures
        kept.host.window_title@ == pre.host.window_title@,
        kept.host.icon_title@ == pre.host.icon_title@,
        which != 1 ==> post.host.window_title@ == pre.host.window_title@,
        which != 2 ==> post.host.icon_title@ == pre.host.icon_title@,
        which == 1 ==> post.host.window_title@ == later.host.window_title@,
        which == 2 ==> post.host.icon_title@ == later.host.icon_title@,
        post.host.title_stack@ == pre.host.title_stack@,
        post == (TerminalState { host: post.host, ..later }),
{
}

/// `CSI n b` prints the last character `n` times more, where there is one.
pub proof fn the_last_character_is_repeated(
    pre: TerminalState,
    command: CsiModel,
    n: int,
    now: ClockReading,
    post: TerminalState,
)
    requires
        is_sequence(command, 'b'),
        counts(command.params, 0, n),
        csi_performed(pre, command, now, post),
    ensures
        pre.last_printed_char is None ==> post == pre,
        pre.last_printed_char matches Some(ch) ==> crate::writing::chars_printed(
            pre,
            Seq::new(n as nat, |i: int| ch),
            post,
        ),
{
}

} // verus!
