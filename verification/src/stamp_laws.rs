//! Whatever input does, the rows of the screen that it changes are stamped, and
//! the history gets rows at its end and loses the oldest.

use vstd::prelude::*;

use crate::advance_laws::document_follows;
use crate::advance_laws::made_for;
use crate::cell::TerminalCell;
use crate::clipboard::bytes_text;
use crate::commands::active_index;
use crate::commands::CompletionProvenance;
use crate::commands::LogModel;
use crate::commands::PromptInput;
use crate::control::changes_screen;
use crate::control::col_left;
use crate::control::col_right;
use crate::control::csi_performed;
use crate::control::cursor_commanded;
use crate::control::cursor_restored;
use crate::control::moves_cursor;
use crate::control::origin_assigned;
use crate::control::private_mode_set;
use crate::control::private_modes_set;
use crate::control::region_set;
use crate::control::restored_at;
use crate::control::row_down;
use crate::control::row_up;
use crate::control::screen_commanded;
use crate::control::setting_commanded;
use crate::control::tabbed;
use crate::control::tabbed_back;
use crate::csi::csi_model;
use crate::csi::given_or;
use crate::csi::param_or;
use crate::csi::CsiModel;
use crate::csi::CsiParam;
use crate::cursor::addressed_col;
use crate::cursor::addressed_row;
use crate::cursor::captured_cursor;
use crate::cursor::cursor_at;
use crate::cursor::cursor_moved;
use crate::cursor::line_fed;
use crate::cursor::moved_to_previous_row;
use crate::cursor::reverse_indexed;
use crate::cursor::tabs_back_to;
use crate::cursor::tabs_to;
use crate::editing::at_most;
use crate::editing::cells_erased;
use crate::editing::chars_deleted;
use crate::editing::chars_inserted;
use crate::editing::display_erased;
use crate::editing::in_region;
use crate::editing::line_erased;
use crate::editing::region_scrolled_down_by;
use crate::editing::region_scrolled_up_by;
use crate::editing::row_deleted;
use crate::editing::row_edited;
use crate::editing::row_redrawn;
use crate::editing::rows_deleted;
use crate::editing::rows_erased;
use crate::grid::filled;
use crate::grid::Line;
use crate::grid::RawRowId;
use crate::lifecycle::bare_packet;
use crate::lifecycle::only_log_changed;
use crate::lifecycle::output_closed;
use crate::lifecycle::output_registered;
use crate::lifecycle::prompt_marked;
use crate::lifecycle::record_ensured;
use crate::lifecycle::record_finished;
use crate::lifecycle::record_pushed;
use crate::lifecycle::record_pushed_and_marked;
use crate::lifecycle::ClockReading;
use crate::lifecycle::PacketModel;
use crate::marks::can_be_active;
use crate::marks::command_ended;
use crate::marks::directory_after;
use crate::marks::ended_index;
use crate::marks::ensured_index;
use crate::marks::left_open_closed;
use crate::marks::log_with_input;
use crate::marks::log_with_packet;
use crate::marks::newest_mark_closed;
use crate::marks::output_marked;
use crate::marks::packet_handled;
use crate::marks::prompt_opened;
use crate::marks::prompt_started;
use crate::marks::repeats_prompt;
use crate::marks::start_model;
use crate::osc133::text_of;
use crate::osc133::Osc133Packet;
use crate::output::noted_reposition;
use crate::output::only_active_changed;
use crate::parser::batch_begun;
use crate::parser::batch_ended;
use crate::parser::charset_designated;
use crate::parser::control_executed;
use crate::parser::csi_step;
use crate::parser::ends_string;
use crate::parser::escape_performed;
use crate::parser::ground_step;
use crate::parser::input_processed;
use crate::parser::input_run;
use crate::parser::input_step;
use crate::parser::is_short_escape;
use crate::parser::mode_begun;
use crate::parser::osc_bytes_performed;
use crate::parser::osc_parts;
use crate::parser::parsing;
use crate::provenance::BufferAnchor;
use crate::provenance::FinishedOutputProvenance;
use crate::queries::changed_rows;
use crate::screens::alternate_entered;
use crate::screens::alternate_left;
use crate::screens::alternate_prepared;
use crate::screens::archive_remembered;
use crate::screens::content_archived;
use crate::screens::copies_archived;
use crate::screens::copy_archived;
use crate::screens::is_snapshot;
use crate::screens::primary_cursor_back;
use crate::screens::rows_archived;
use crate::screens::rows_chars;
use crate::screens::screen_archived;
use crate::screens::screen_is_blank;
use crate::screens::screens_exchanged;
use crate::screens::selection_rebased;
use crate::screens::snapshot_view;
use crate::screens::spans_content;
use crate::screens::sync_begun;
use crate::screens::sync_ended;
use crate::screens::sync_entry_archived;
use crate::screens::sync_frame_kept;
use crate::screens::sync_switched_off;
use crate::scrolling::grid_moved_down;
use crate::scrolling::grid_moved_up;
use crate::scrolling::history_full;
use crate::scrolling::line_archived;
use crate::scrolling::region_scrolled_down;
use crate::scrolling::region_scrolled_up;
use crate::scrolling::row_lost;
use crate::scrolling::spans_invalidated;
use crate::setup::history_cleared;
use crate::setup::oldest_row_dropped;
use crate::setup::oldest_rows_dropped;
use crate::setup::terminal_reset;
use crate::state::next_id_after;
use crate::state::ParserMode;
use crate::state::SavedCursors;
use crate::state::TerminalState;
use crate::text_laws::fed_with;
use crate::text_laws::feeding_goes_on;
use crate::text_laws::history_fed;
use crate::text_laws::in_shape;
use crate::text_laws::lemma_chars;
use crate::text_laws::lemma_control;
use crate::text_laws::lemma_ground;
use crate::text_laws::lemma_scrolled_up;
use crate::text_laws::plan_kept;
use crate::text_laws::row_accounted;
use crate::text_laws::text_shown;
use crate::writing::whole_span;

verus! {

/// `post` is `pre` after input that stamped every row it changed, did nothing
/// to the history but feed it and made no other document remembered, or that
/// started over.
#[verifier::opaque]
spec fn rows_tracked(pre: TerminalState, post: TerminalState) -> bool {
    &&& post.grid@.len() == pre.grid@.len()
    &&& post.row_versions@.len() == pre.row_versions@.len()
    &&& {
        ||| post.grid_version == pre.grid_version && history_fed(pre, post) && plan_kept(pre, post)
            && forall|r: int|
            0 <= r < pre.grid@.len() ==> #[trigger] row_accounted(pre, post, r)
        ||| post.grid_version == 1 && post.caches.plan is None && forall|r: int|
            0 <= r < post.grid@.len() ==> #[trigger] post.row_versions@[r] == 1
    }
}

/// Whether the screens, their rows and where the cursor and the scroll region
/// are stay as they were.
spec fn rows_kept(pre: TerminalState, post: TerminalState) -> bool {
    &&& post.grid == pre.grid
    &&& post.alt_grid == pre.alt_grid
    &&& post.grid_version == pre.grid_version
    &&& post.row_versions == pre.row_versions
    &&& post.cursor_row == pre.cursor_row
    &&& post.scroll_region_top == pre.scroll_region_top
    &&& post.scroll_region_bottom == pre.scroll_region_bottom
    &&& post.max_scrollback == pre.max_scrollback
    &&& plan_kept(pre, post)
}

/// Whether the history stays as it was.
spec fn history_kept(pre: TerminalState, post: TerminalState) -> bool {
    &&& post.scrollback == pre.scrollback
    &&& post.total_lines_scrolled == pre.total_lines_scrolled
}

/// Whether the screens and the history stay as they were.
spec fn screens_kept(pre: TerminalState, post: TerminalState) -> bool {
    &&& rows_kept(pre, post)
    &&& history_kept(pre, post)
}

/// What input does in two steps it does in one.
proof fn lemma_goes_on(a: TerminalState, b: TerminalState, c: TerminalState)
    requires
        in_shape(a),
        in_shape(b),
        rows_tracked(a, b),
        rows_tracked(b, c),
    ensures
        rows_tracked(a, c),
{
    reveal(rows_tracked);
    if b.grid_version == a.grid_version && history_fed(a, b) && plan_kept(a, b) && (forall|r: int|
        0 <= r < a.grid@.len() ==> #[trigger] row_accounted(a, b, r)) && c.grid_version
        == b.grid_version && history_fed(b, c) && plan_kept(b, c) && (forall|r: int|
        0 <= r < b.grid@.len() ==> #[trigger] row_accounted(b, c, r)) {
        feeding_goes_on(a, b, c);
        assert forall|r: int| 0 <= r < a.grid@.len() implies #[trigger] row_accounted(a, c, r) by {
            assert(row_accounted(a, b, r));
            assert(row_accounted(b, c, r));
        }
    } else if c.grid_version == b.grid_version && history_fed(b, c) && plan_kept(b, c) && (forall|
        r: int,
    |
        0 <= r < b.grid@.len() ==> #[trigger] row_accounted(b, c, r)) {
        assert forall|r: int| 0 <= r < c.grid@.len() implies #[trigger] c.row_versions@[r] == 1 by {
            assert(row_accounted(b, c, r));
            assert(b.row_versions@[r] == 1);
        }
    }
}

/// A history that stays is fed nothing.
proof fn lemma_history_kept(pre: TerminalState, post: TerminalState)
    requires
        history_kept(pre, post),
    ensures
        history_fed(pre, post),
{
    let none = Seq::<Line>::empty();
    assert(pre.history() =~= (pre.history() + none).skip(0));
    assert(fed_with(pre.history(), post.history(), none));
}

/// Rows that are accounted for are tracked, where the history is fed.
proof fn lemma_fed(pre: TerminalState, post: TerminalState)
    requires
        post.grid@.len() == pre.grid@.len(),
        post.row_versions@.len() == pre.row_versions@.len(),
        post.grid_version == pre.grid_version,
        plan_kept(pre, post),
        history_fed(pre, post),
        forall|r: int| 0 <= r < pre.grid@.len() ==> #[trigger] row_accounted(pre, post, r),
    ensures
        rows_tracked(pre, post),
{
    reveal(rows_tracked);
}

/// Rows that are accounted for are tracked, where the history stays.
proof fn lemma_accounted(pre: TerminalState, post: TerminalState)
    requires
        post.grid@.len() == pre.grid@.len(),
        post.row_versions@.len() == pre.row_versions@.len(),
        post.grid_version == pre.grid_version,
        plan_kept(pre, post),
        history_kept(pre, post),
        forall|r: int| 0 <= r < pre.grid@.len() ==> #[trigger] row_accounted(pre, post, r),
    ensures
        rows_tracked(pre, post),
{
    lemma_history_kept(pre, post);
    lemma_fed(pre, post);
}

/// Where the screen stays and the history is fed there is nothing to account
/// for.
proof fn lemma_rows_kept(pre: TerminalState, post: TerminalState)
    requires
        in_shape(pre),
        rows_kept(pre, post),
        history_fed(pre, post),
    ensures
        rows_tracked(pre, post),
        in_shape(post),
{
    assert forall|r: int| 0 <= r < pre.grid@.len() implies #[trigger] row_accounted(
        pre,
        post,
        r,
    ) by {}
    lemma_fed(pre, post);
}

/// Where the screen stays there is nothing to account for.
proof fn lemma_kept(pre: TerminalState, post: TerminalState)
    requires
        in_shape(pre),
        screens_kept(pre, post),
    ensures
        rows_tracked(pre, post),
        in_shape(post),
{
    lemma_cursor_only(pre, post);
}

/// Moving the cursor changes no row.
proof fn lemma_cursor_only(pre: TerminalState, post: TerminalState)
    requires
        in_shape(pre),
        post.cursor_row < pre.grid@.len(),
        screens_kept(TerminalState { cursor_row: post.cursor_row, ..pre }, post),
    ensures
        rows_tracked(pre, post),
        in_shape(post),
{
    assert forall|r: int| 0 <= r < pre.grid@.len() implies #[trigger] row_accounted(
        pre,
        post,
        r,
    ) by {}
    lemma_accounted(pre, post);
}

/// Text stamps the rows that it changes.
proof fn lemma_text(pre: TerminalState, post: TerminalState)
    requires
        in_shape(pre),
        text_shown(pre, post),
    ensures
        rows_tracked(pre, post),
        in_shape(post),
{
    reveal(text_shown);
    lemma_fed(pre, post);
}

/// Moving the cursor to a row of the screen changes no row.
proof fn lemma_moved(
    pre: TerminalState,
    row: int,
    col: int,
    non_linear: bool,
    post: TerminalState,
)
    requires
        in_shape(pre),
        0 <= row < pre.grid@.len(),
        cursor_moved(pre, row, col, non_linear, post),
    ensures
        rows_tracked(pre, post),
        in_shape(post),
{
    let mid = choose|mid: TerminalState|
        {
            &&& #[trigger] cursor_at(pre, row, col, mid)
            &&& only_active_changed(mid, noted_reposition(mid, non_linear), post)
        };
    assert(cursor_at(pre, row, col, mid));
    lemma_cursor_only(pre, post);
}

/// Going along the tab stops changes no row.
proof fn lemma_tabbed(pre: TerminalState, n: int, post: TerminalState)
    requires
        in_shape(pre),
        tabbed(pre, n, post),
    ensures
        rows_tracked(pre, post),
        in_shape(post),
    decreases n,
{
    if n <= 0 {
        lemma_kept(pre, post);
    } else {
        let (col, mid) = choose|col: int, mid: TerminalState|
            {
                &&& tabs_to(pre.tab_stops@, pre.cols(), pre.cursor_col as int, col)
                &&& #[trigger] cursor_moved(pre, pre.cursor_row as int, col, false, mid)
                &&& tabbed(mid, n - 1, post)
            };
        lemma_moved(pre, pre.cursor_row as int, col, false, mid);
        lemma_tabbed(mid, n - 1, post);
        lemma_goes_on(pre, mid, post);
    }
}

/// Going back along the tab stops changes no row.
proof fn lemma_tabbed_back(pre: TerminalState, n: int, post: TerminalState)
    requires
        in_shape(pre),
        tabbed_back(pre, n, post),
    ensures
        rows_tracked(pre, post),
        in_shape(post),
    decreases n,
{
    if n <= 0 {
        lemma_kept(pre, post);
    } else {
        let (col, mid) = choose|col: int, mid: TerminalState|
            {
                &&& tabs_back_to(pre.tab_stops@, pre.cursor_col as int, col)
                &&& #[trigger] cursor_moved(pre, pre.cursor_row as int, col, false, mid)
                &&& tabbed_back(mid, n - 1, post)
            };
        lemma_moved(pre, pre.cursor_row as int, col, false, mid);
        lemma_tabbed_back(mid, n - 1, post);
        lemma_goes_on(pre, mid, post);
    }
}

/// Bringing a saved cursor back changes no row.
proof fn lemma_restored(pre: TerminalState, post: TerminalState)
    requires
        in_shape(pre),
        cursor_restored(pre, post),
    ensures
        rows_tracked(pre, post),
        in_shape(post),
{
    let mid = choose|mid: TerminalState|
        {
            &&& #[trigger] restored_at(pre, mid)
            &&& only_active_changed(mid, noted_reposition(mid, true), post)
        };
    assert(restored_at(pre, mid));
    lemma_cursor_only(pre, post);
}

/// Setting the scroll region changes no row.
proof fn lemma_region_set(pre: TerminalState, params: Seq<CsiParam>, post: TerminalState)
    requires
        in_shape(pre),
        region_set(pre, params, post),
    ensures
        rows_tracked(pre, post),
        in_shape(post),
{
    let top = param_or(params, 0, 1) as int;
    let given = param_or(params, 1, u16::MAX) as int;
    let bottom = if given < pre.rows() {
        given
    } else {
        pre.rows()
    };
    if top >= bottom {
        lemma_kept(pre, post);
    } else {
        let set = TerminalState {
            scroll_region_top: (top - 1) as usize,
            scroll_region_bottom: (bottom - 1) as usize,
            ..pre
        };
        assert(param_or(params, 0, 1) >= 1);
        assert(in_shape(set));
        assert forall|r: int| 0 <= r < pre.grid@.len() implies #[trigger] row_accounted(
            pre,
            set,
            r,
        ) by {}
        lemma_accounted(pre, set);
        lemma_moved(set, addressed_row(set, 1), addressed_col(set, 1), true, post);
        lemma_goes_on(pre, set, post);
    }
}

/// Editing a row stamps it.
proof fn lemma_edited(
    pre: TerminalState,
    row: int,
    span: (int, int),
    cells: Seq<TerminalCell>,
    cut: bool,
    post: TerminalState,
)
    requires
        in_shape(pre),
        0 <= row < pre.grid@.len(),
        row_edited(pre, row, span, cells, cut, post),
    ensures
        rows_tracked(pre, post),
        in_shape(post),
        post.cursor_row == pre.cursor_row,
{
    let mid = choose|mid: TerminalState|
        {
            &&& #[trigger] spans_invalidated(
                pre,
                seq![(pre.grid@[row].id, span.0 as usize, span.1 as usize)],
                mid,
            )
            &&& row_redrawn(mid, row, cells, cut, post)
        };
    assert(screens_kept(pre, mid));
    assert forall|r: int| 0 <= r < pre.grid@.len() implies #[trigger] row_accounted(
        pre,
        post,
        r,
    ) by {}
    lemma_accounted(pre, post);
}

/// Erasing rows stamps them.
proof fn lemma_rows_erased(pre: TerminalState, first: int, last: int, post: TerminalState)
    requires
        in_shape(pre),
        0 <= first,
        last <= pre.grid@.len(),
        rows_erased(pre, first, last, post),
    ensures
        rows_tracked(pre, post),
        in_shape(post),
    decreases last - first,
{
    if first >= last {
        lemma_kept(pre, post);
    } else {
        let mid = choose|mid: TerminalState|
            {
                &&& #[trigger] cells_erased(pre, first, 0, pre.cols(), true, mid)
                &&& rows_erased(mid, first + 1, last, post)
            };
        lemma_erased(pre, first, 0, pre.cols(), true, mid);
        lemma_len(pre, mid);
        lemma_rows_erased(mid, first + 1, last, post);
        lemma_goes_on(pre, mid, post);
    }
}

/// The screen keeps its height.
proof fn lemma_len(pre: TerminalState, post: TerminalState)
    requires
        rows_tracked(pre, post),
    ensures
        post.grid@.len() == pre.grid@.len(),
{
    reveal(rows_tracked);
}

/// Erasing part of a row stamps it.
proof fn lemma_erased(
    pre: TerminalState,
    row: int,
    start: int,
    end: int,
    cut: bool,
    post: TerminalState,
)
    requires
        in_shape(pre),
        0 <= row < pre.grid@.len(),
        cells_erased(pre, row, start, end, cut, post),
    ensures
        rows_tracked(pre, post),
        in_shape(post),
        post.cursor_row == pre.cursor_row,
{
    let cells = pre.row_cells(row);
    let span = whole_span(cells, start, end);
    lemma_edited(
        pre,
        row,
        span,
        filled(cells, span.0, span.1, pre.blank()),
        cut,
        post,
    );
}

/// Erasing in the cursor row stamps it.
proof fn lemma_line_erased(pre: TerminalState, mode: u16, post: TerminalState)
    requires
        in_shape(pre),
        line_erased(pre, mode, post),
    ensures
        rows_tracked(pre, post),
        in_shape(post),
        post.cursor_row == pre.cursor_row,
{
    let row = pre.cursor_row as int;
    if mode == 0 {
        lemma_erased(pre, row, pre.cursor_col as int, pre.cols(), true, post);
    } else if mode == 1 {
        lemma_erased(pre, row, 0, pre.cursor_col + 1, false, post);
    } else if mode == 2 {
        lemma_erased(pre, row, 0, pre.cols(), true, post);
    } else {
        lemma_kept(pre, post);
    }
}

/// Erasing on the screen stamps the rows.
proof fn lemma_display_erased(pre: TerminalState, mode: u16, post: TerminalState)
    requires
        in_shape(pre),
        display_erased(pre, mode, post),
    ensures
        rows_tracked(pre, post),
        in_shape(post),
{
    if mode == 0 {
        let mid = choose|mid: TerminalState|
            {
                &&& #[trigger] line_erased(pre, 0, mid)
                &&& rows_erased(mid, mid.cursor_row + 1, mid.rows(), post)
            };
        lemma_line_erased(pre, 0, mid);
        lemma_rows_erased(mid, mid.cursor_row + 1, mid.rows(), post);
        lemma_goes_on(pre, mid, post);
    } else if mode == 1 {
        let mid = choose|mid: TerminalState|
            {
                &&& #[trigger] line_erased(pre, 1, mid)
                &&& rows_erased(mid, 0, mid.cursor_row as int, post)
            };
        lemma_line_erased(pre, 1, mid);
        lemma_rows_erased(mid, 0, mid.cursor_row as int, post);
        lemma_goes_on(pre, mid, post);
    } else if mode == 2 {
        lemma_rows_erased(pre, 0, pre.rows(), post);
    } else {
        lemma_kept(pre, post);
    }
}

/// Rows that move up are stamped.
proof fn lemma_up(pre: TerminalState, top: int, bottom: int, post: TerminalState)
    requires
        in_shape(pre),
        0 <= top <= bottom < pre.grid@.len(),
        grid_moved_up(pre, top, bottom, post),
    ensures
        rows_tracked(pre, post),
        in_shape(post),
{
    assert forall|r: int| 0 <= r < pre.grid@.len() implies #[trigger] row_accounted(
        pre,
        post,
        r,
    ) by {}
    lemma_accounted(pre, post);
}

/// Rows that move down are stamped.
proof fn lemma_down(pre: TerminalState, top: int, bottom: int, post: TerminalState)
    requires
        in_shape(pre),
        0 <= top <= bottom < pre.grid@.len(),
        grid_moved_down(pre, top, bottom, post),
    ensures
        rows_tracked(pre, post),
        in_shape(post),
{
    assert forall|r: int| 0 <= r < pre.grid@.len() implies #[trigger] row_accounted(
        pre,
        post,
        r,
    ) by {}
    lemma_accounted(pre, post);
}

/// Deleting rows stamps those that move.
proof fn lemma_rows_deleted(pre: TerminalState, top: int, bottom: int, n: int, post: TerminalState)
    requires
        in_shape(pre),
        0 <= top <= bottom < pre.grid@.len(),
        rows_deleted(pre, top, bottom, n, post),
    ensures
        rows_tracked(pre, post),
        in_shape(post),
    decreases n,
{
    if n <= 0 {
        lemma_kept(pre, post);
    } else {
        let mid = choose|mid: TerminalState|
            {
                &&& #[trigger] row_deleted(pre, top, bottom, mid)
                &&& rows_deleted(mid, top, bottom, n - 1, post)
            };
        let lost = choose|lost: TerminalState|
            {
                &&& #[trigger] row_lost(pre, pre.grid@[top].id, lost)
                &&& grid_moved_up(lost, top, bottom, mid)
            };
        lemma_kept(pre, lost);
        lemma_up(lost, top, bottom, mid);
        lemma_goes_on(pre, lost, mid);
        lemma_len(pre, mid);
        lemma_rows_deleted(mid, top, bottom, n - 1, post);
        lemma_goes_on(pre, mid, post);
    }
}

/// Scrolling up stamps the rows.
proof fn lemma_scrolled_up_by(pre: TerminalState, top: int, bottom: int, n: int, post: TerminalState)
    requires
        in_shape(pre),
        0 <= top <= bottom < pre.grid@.len(),
        region_scrolled_up_by(pre, top, bottom, n, post),
    ensures
        rows_tracked(pre, post),
        in_shape(post),
    decreases n,
{
    if n <= 0 {
        lemma_kept(pre, post);
    } else {
        let mid = choose|mid: TerminalState|
            {
                &&& #[trigger] region_scrolled_up(pre, top, bottom, mid)
                &&& region_scrolled_up_by(mid, top, bottom, n - 1, post)
            };
        lemma_scrolled_up(pre, top, bottom, mid);
        lemma_text(pre, mid);
        lemma_len(pre, mid);
        lemma_scrolled_up_by(mid, top, bottom, n - 1, post);
        lemma_goes_on(pre, mid, post);
    }
}

/// Scrolling down by one stamps the rows.
proof fn lemma_scrolled_down(pre: TerminalState, top: int, bottom: int, post: TerminalState)
    requires
        in_shape(pre),
        0 <= top <= bottom < pre.grid@.len(),
        region_scrolled_down(pre, top, bottom, post),
    ensures
        rows_tracked(pre, post),
        in_shape(post),
{
    let lost = choose|lost: TerminalState|
        {
            &&& #[trigger] row_lost(pre, pre.grid@[bottom].id, lost)
            &&& grid_moved_down(lost, top, bottom, post)
        };
    lemma_kept(pre, lost);
    lemma_down(lost, top, bottom, post);
    lemma_goes_on(pre, lost, post);
}

/// Scrolling down stamps the rows.
proof fn lemma_scrolled_down_by(
    pre: TerminalState,
    top: int,
    bottom: int,
    n: int,
    post: TerminalState,
)
    requires
        in_shape(pre),
        0 <= top <= bottom < pre.grid@.len(),
        region_scrolled_down_by(pre, top, bottom, n, post),
    ensures
        rows_tracked(pre, post),
        in_shape(post),
    decreases n,
{
    if n <= 0 {
        lemma_kept(pre, post);
    } else {
        let mid = choose|mid: TerminalState|
            {
                &&& #[trigger] region_scrolled_down(pre, top, bottom, mid)
                &&& region_scrolled_down_by(mid, top, bottom, n - 1, post)
            };
        lemma_scrolled_down(pre, top, bottom, mid);
        lemma_len(pre, mid);
        lemma_scrolled_down_by(mid, top, bottom, n - 1, post);
        lemma_goes_on(pre, mid, post);
    }
}

/// Going back a row stamps what moves.
proof fn lemma_reverse_indexed(pre: TerminalState, post: TerminalState)
    requires
        in_shape(pre),
        reverse_indexed(pre, post),
    ensures
        rows_tracked(pre, post),
        in_shape(post),
{
    let settled = TerminalState { pending_wrap: false, ..pre };
    let moved = choose|moved: TerminalState|
        {
            &&& #[trigger] moved_to_previous_row(settled, moved)
            &&& only_active_changed(moved, noted_reposition(moved, true), post)
        };
    lemma_kept(pre, settled);
    if settled.cursor_row == settled.scroll_region_top {
        lemma_scrolled_down(
            settled,
            settled.scroll_region_top as int,
            settled.scroll_region_bottom as int,
            moved,
        );
    } else {
        lemma_cursor_only(settled, moved);
    }
    lemma_kept(moved, post);
    lemma_goes_on(pre, settled, moved);
    lemma_goes_on(pre, moved, post);
}

/// Dropping the oldest rows of the history changes no row of the screen.
proof fn lemma_oldest_dropped(pre: TerminalState, n: int, post: TerminalState)
    requires
        oldest_rows_dropped(pre, n, post),
    ensures
        rows_kept(pre, post),
        history_fed(pre, post),
    decreases n,
{
    if n <= 0 {
        lemma_history_kept(pre, post);
    } else {
        let mid = choose|mid: TerminalState| #[trigger]
            oldest_row_dropped(pre, mid) && oldest_rows_dropped(mid, n - 1, post);
        let none = Seq::<Line>::empty();
        assert(mid.history() =~= (pre.history() + none).skip(1));
        assert(fed_with(pre.history(), mid.history(), none));
        lemma_oldest_dropped(mid, n - 1, post);
        feeding_goes_on(pre, mid, post);
    }
}

/// Clearing the history changes no row of the screen.
proof fn lemma_history_cleared(pre: TerminalState, post: TerminalState)
    requires
        history_cleared(pre, post),
    ensures
        rows_kept(pre, post),
        history_fed(pre, post),
{
    let start = TerminalState { scroll_offset: 0, ..pre };
    let mid = choose|mid: TerminalState|
        {
            &&& #[trigger] oldest_rows_dropped(start, pre.history().len() as int, mid)
            &&& post.caches == mid.caches.views_dropped()
            &&& post == TerminalState { caches: post.caches, ..mid }
        };
    lemma_oldest_dropped(start, pre.history().len() as int, mid);
    lemma_history_kept(pre, start);
    feeding_goes_on(pre, start, mid);
    lemma_history_kept(mid, post);
    feeding_goes_on(pre, mid, post);
}

/// A row that enters the history is appended to it.
proof fn lemma_line_archived(pre: TerminalState, line: Line, post: TerminalState)
    requires
        pre.max_scrollback >= 1,
        line_archived(pre, line, post),
    ensures
        rows_kept(pre, post),
        history_fed(pre, post),
{
    let fresh = seq![line];
    let all = pre.history() + fresh;
    if history_full(pre) {
        assert(post.history() =~= all.skip(1));
    } else {
        assert(post.history() =~= all.skip(0));
    }
    assert(fed_with(pre.history(), post.history(), fresh));
}

/// Archiving copies of rows changes no row of the screen.
proof fn lemma_copies(pre: TerminalState, first: int, end: int, post: TerminalState)
    requires
        pre.max_scrollback >= 1,
        copies_archived(pre, first, end, post),
    ensures
        rows_kept(pre, post),
        history_fed(pre, post),
    decreases end - first,
{
    if first >= end {
        lemma_history_kept(pre, post);
    } else {
        let mid = choose|mid: TerminalState|
            {
                &&& #[trigger] copy_archived(pre, first, mid)
                &&& copies_archived(mid, first + 1, end, post)
            };
        assert(copy_archived(pre, first, mid));
        let numbered = TerminalState {
            next_raw_row_id: next_id_after(pre.next_raw_row_id),
            ..pre
        };
        lemma_history_kept(pre, numbered);
        lemma_line_archived(
            numbered,
            Line { id: RawRowId { raw: pre.next_raw_row_id }, ..pre.grid@[first] },
            mid,
        );
        feeding_goes_on(pre, numbered, mid);
        lemma_copies(mid, first + 1, end, post);
        feeding_goes_on(pre, mid, post);
    }
}

/// Archiving rows changes no row of the screen.
proof fn lemma_rows_archived(pre: TerminalState, first: int, last: int, post: TerminalState)
    requires
        pre.max_scrollback >= 1,
        rows_archived(pre, first, last, post),
    ensures
        rows_kept(pre, post),
        history_fed(pre, post),
{
    let mid = choose|mid: TerminalState|
        {
            &&& #[trigger] copies_archived(pre, first, last + 1, mid)
            &&& selection_rebased(
                mid,
                pre.scrollback@.len() as usize,
                mid.scrollback@.len() as usize,
                post,
            )
        };
    lemma_copies(pre, first, last + 1, mid);
    lemma_history_kept(mid, post);
    feeding_goes_on(pre, mid, post);
}

/// Archiving the screen changes no row of it.
proof fn lemma_screen_archived(
    pre: TerminalState,
    allow_alt: bool,
    dedupe: bool,
    post: TerminalState,
)
    requires
        pre.max_scrollback >= 1,
        screen_archived(pre, allow_alt, dedupe, post),
    ensures
        rows_kept(pre, post),
        history_fed(pre, post),
{
    lemma_history_kept(pre, pre);
    if !((pre.use_alt_buffer && !allow_alt) || screen_is_blank(pre)) {
        let (first, last) = choose|first: int, last: int| #[trigger]
            spans_content(pre, first, last) && content_archived(pre, first, last, dedupe, post);
        let snapshot = rows_chars(pre, first, last);
        if !dedupe {
            lemma_rows_archived(pre, first, last, post);
        } else if snapshot_view(pre.last_archived_screen_snapshot@) != snapshot {
            let mid = choose|mid: TerminalState|
                {
                    &&& #[trigger] archive_remembered(pre, snapshot, mid)
                    &&& rows_archived(mid, first, last, post)
                };
            lemma_history_kept(pre, mid);
            lemma_rows_archived(mid, first, last, post);
            feeding_goes_on(pre, mid, post);
        }
    }
}

/// Beginning a synchronized update changes no row.
proof fn lemma_sync_begun(pre: TerminalState, now_ns: u64, post: TerminalState)
    requires
        pre.max_scrollback >= 1,
        sync_begun(pre, now_ns, post),
    ensures
        rows_kept(pre, post),
        history_fed(pre, post),
{
    let mid = choose|mid: TerminalState|
        {
            &&& #[trigger] sync_entry_archived(pre, mid)
            &&& post == TerminalState {
                modes: post.modes,
                sync_output_active: post.sync_output_active,
                sync_output_start: post.sync_output_start,
                ..mid
            }
        };
    assert(sync_entry_archived(pre, mid));
    lemma_history_kept(pre, pre);
    if !(pre.sync_output_active || pre.use_alt_buffer) {
        if !(screen_is_blank(pre) || is_snapshot(
            pre,
            snapshot_view(pre.last_synced_primary_screen_snapshot@),
        )) {
            lemma_screen_archived(pre, false, false, mid);
        }
    }
    lemma_history_kept(mid, post);
    feeding_goes_on(pre, mid, post);
}

/// Ending a synchronized update stamps all rows.
proof fn lemma_sync_ended(pre: TerminalState, post: TerminalState)
    requires
        in_shape(pre),
        sync_ended(pre, post),
    ensures
        rows_tracked(pre, post),
        in_shape(post),
{
    if !pre.sync_output_active {
        lemma_kept(pre, post);
    } else {
        let mid = choose|mid: TerminalState|
            {
                &&& #[trigger] sync_frame_kept(pre, mid)
                &&& sync_switched_off(mid, post)
            };
        lemma_history_kept(pre, pre);
        if pre.use_alt_buffer {
            lemma_screen_archived(pre, true, true, mid);
        } else {
            lemma_history_kept(pre, mid);
        }
        lemma_rows_kept(pre, mid);
        assert forall|r: int| 0 <= r < mid.grid@.len() implies #[trigger] row_accounted(
            mid,
            post,
            r,
        ) by {}
        lemma_accounted(mid, post);
        lemma_goes_on(pre, mid, post);
    }
}

/// Showing the alternate screen stamps all rows.
proof fn lemma_alternate_entered(pre: TerminalState, clear: bool, post: TerminalState)
    requires
        in_shape(pre),
        alternate_entered(pre, clear, post),
    ensures
        rows_tracked(pre, post),
        in_shape(post),
{
    if pre.use_alt_buffer {
        lemma_kept(pre, post);
    } else {
        let saved = SavedCursors { primary: Some(captured_cursor(pre)), ..pre.saved };
        let mid = choose|mid: TerminalState|
            {
                &&& #[trigger] screens_exchanged(pre, mid)
                &&& alternate_prepared(mid, saved, clear, post)
            };
        assert(screens_exchanged(pre, mid));
        assert forall|r: int| 0 <= r < pre.grid@.len() implies #[trigger] row_accounted(
            pre,
            post,
            r,
        ) by {}
        lemma_accounted(pre, post);
    }
}

/// Showing the primary screen again stamps all rows.
proof fn lemma_alternate_left(pre: TerminalState, post: TerminalState)
    requires
        in_shape(pre),
        alternate_left(pre, post),
    ensures
        rows_tracked(pre, post),
        in_shape(post),
{
    if !pre.use_alt_buffer {
        lemma_kept(pre, post);
    } else {
        let left = TerminalState {
            saved: SavedCursors {
                primary: None,
                alt_row: pre.cursor_row,
                alt_col: pre.cursor_col,
                ..pre.saved
            },
            ..pre
        };
        let mid = choose|mid: TerminalState|
            {
                &&& #[trigger] screens_exchanged(left, mid)
                &&& primary_cursor_back(mid, pre.saved, post)
            };
        assert(screens_exchanged(left, mid));
        assert forall|r: int| 0 <= r < pre.grid@.len() implies #[trigger] row_accounted(
            pre,
            post,
            r,
        ) by {}
        lemma_accounted(pre, post);
    }
}

/// Switching a private mode stamps the rows that change.
proof fn lemma_private_mode(
    pre: TerminalState,
    mode: u16,
    on: bool,
    now: ClockReading,
    post: TerminalState,
)
    requires
        in_shape(pre),
        private_mode_set(pre, mode, on, now, post),
    ensures
        rows_tracked(pre, post),
        in_shape(post),
{
    if mode == 47 || mode == 1047 || mode == 1049 {
        if on {
            lemma_alternate_entered(pre, mode != 47, post);
        } else {
            lemma_alternate_left(pre, post);
        }
    } else if mode == 2026 {
        if on {
            lemma_sync_begun(pre, now.monotonic_ns, post);
            lemma_rows_kept(pre, post);
        } else {
            lemma_sync_ended(pre, post);
        }
    } else if mode == 6 {
        let mid = choose|mid: TerminalState|
            {
                &&& #[trigger] origin_assigned(pre, on, mid)
                &&& cursor_moved(mid, addressed_row(mid, 1), addressed_col(mid, 1), true, post)
            };
        lemma_kept(pre, mid);
        lemma_moved(mid, addressed_row(mid, 1), addressed_col(mid, 1), true, post);
        lemma_goes_on(pre, mid, post);
    } else {
        lemma_kept(pre, post);
    }
}

/// Switching private modes stamps the rows that change.
proof fn lemma_private_modes(
    pre: TerminalState,
    params: Seq<CsiParam>,
    i: int,
    on: bool,
    now: ClockReading,
    post: TerminalState,
)
    requires
        in_shape(pre),
        private_modes_set(pre, params, i, on, now, post),
    ensures
        rows_tracked(pre, post),
        in_shape(post),
    decreases params.len() - i,
{
    if i >= params.len() {
        lemma_kept(pre, post);
    } else {
        let mid = choose|mid: TerminalState|
            {
                &&& #[trigger] private_mode_set(pre, params[i].number, on, now, mid)
                &&& private_modes_set(mid, params, i + 1, on, now, post)
            };
        lemma_private_mode(pre, params[i].number, on, now, mid);
        lemma_private_modes(mid, params, i + 1, on, now, post);
        lemma_goes_on(pre, mid, post);
    }
}

/// Moving the cursor by a control sequence changes no row.
proof fn lemma_cursor_commanded(
    pre: TerminalState,
    last: u8,
    params: Seq<CsiParam>,
    post: TerminalState,
)
    requires
        in_shape(pre),
        cursor_commanded(pre, last, params, post),
    ensures
        rows_tracked(pre, post),
        in_shape(post),
{
    let n = param_or(params, 0, 1) as int;
    let row = pre.cursor_row as int;
    let col = pre.cursor_col as int;
    if last == 0x41 {
        lemma_moved(pre, row_up(pre, n), col, true, post);
    } else if last == 0x42 || last == 0x65 {
        lemma_moved(pre, row_down(pre, n), col, true, post);
    } else if last == 0x43 || last == 0x61 {
        lemma_moved(pre, row, col_right(pre, n), false, post);
    } else if last == 0x44 {
        lemma_moved(pre, row, col_left(pre, n), false, post);
    } else if last == 0x45 {
        lemma_moved(pre, row_down(pre, n), 0, true, post);
    } else if last == 0x46 {
        lemma_moved(pre, row_up(pre, n), 0, true, post);
    } else if last == 0x47 || last == 0x60 {
        lemma_moved(pre, row, addressed_col(pre, n), false, post);
    } else if last == 0x48 || last == 0x66 {
        lemma_moved(
            pre,
            addressed_row(pre, n),
            addressed_col(pre, param_or(params, 1, 1) as int),
            true,
            post,
        );
    } else if last == 0x49 {
        lemma_tabbed(pre, n, post);
    } else if last == 0x5a {
        lemma_tabbed_back(pre, n, post);
    } else if last == 0x64 {
        lemma_moved(pre, addressed_row(pre, n), col, true, post);
    } else {
        lemma_kept(pre, post);
    }
}

/// Changing what the screen shows stamps the rows.
proof fn lemma_screen_commanded(
    pre: TerminalState,
    last: u8,
    params: Seq<CsiParam>,
    post: TerminalState,
)
    requires
        in_shape(pre),
        screen_commanded(pre, last, params, post),
    ensures
        rows_tracked(pre, post),
        in_shape(post),
{
    let n = param_or(params, 0, 1) as int;
    let count = given_or(params, 0, 1) as int;
    let mode = given_or(params, 0, 0);
    let row = pre.cursor_row as int;
    let col = pre.cursor_col as int;
    let top = pre.scroll_region_top as int;
    let bottom = pre.scroll_region_bottom as int;
    let cells = pre.row_cells(row);
    let k = at_most(count, pre.cols() - col);
    let span = whole_span(cells, col, pre.cols());
    if last == 0x40 {
        if k <= 0 {
            lemma_kept(pre, post);
        } else {
            lemma_edited(
                pre,
                row,
                span,
                chars_inserted(cells, col, k, pre.blank()),
                false,
                post,
            );
        }
    } else if last == 0x4a {
        if mode == 3 {
            lemma_history_cleared(pre, post);
            lemma_rows_kept(pre, post);
        } else {
            lemma_display_erased(pre, mode, post);
        }
    } else if last == 0x4b {
        lemma_line_erased(pre, mode, post);
    } else if last == 0x4c {
        if in_region(pre) {
            lemma_scrolled_down_by(pre, row, bottom, at_most(count, bottom - row + 1), post);
        } else {
            lemma_kept(pre, post);
        }
    } else if last == 0x4d {
        if in_region(pre) {
            lemma_rows_deleted(pre, row, bottom, at_most(count, bottom - row + 1), post);
        } else {
            lemma_kept(pre, post);
        }
    } else if last == 0x50 {
        if k <= 0 {
            lemma_kept(pre, post);
        } else {
            lemma_edited(
                pre,
                row,
                span,
                chars_deleted(cells, col, k, pre.blank()),
                false,
                post,
            );
        }
    } else if last == 0x53 {
        lemma_scrolled_up_by(pre, top, bottom, n, post);
    } else if last == 0x54 {
        lemma_scrolled_down_by(pre, top, bottom, n, post);
    } else if last == 0x58 {
        lemma_erased(
            pre,
            row,
            col,
            if pre.cursor_col + n < pre.cols() {
                pre.cursor_col + n
            } else {
                pre.cols()
            },
            false,
            post,
        );
    } else if last == 0x62 {
        match pre.last_printed_char {
            Some(ch) => {
                lemma_chars(pre, Seq::new(n as nat, |i: int| ch), post);
                lemma_text(pre, post);
            },
            None => {
                lemma_kept(pre, post);
            },
        }
    } else {
        lemma_kept(pre, post);
    }
}

/// Changing a setting changes no row.
proof fn lemma_setting_commanded(
    pre: TerminalState,
    last: u8,
    params: Seq<CsiParam>,
    post: TerminalState,
)
    requires
        in_shape(pre),
        setting_commanded(pre, last, params, post),
    ensures
        rows_tracked(pre, post),
        in_shape(post),
{
    if last == 0x72 {
        lemma_region_set(pre, params, post);
    } else if last == 0x75 {
        lemma_restored(pre, post);
    } else {
        lemma_kept(pre, post);
    }
}

/// A control sequence stamps the rows that change.
proof fn lemma_csi(pre: TerminalState, command: CsiModel, now: ClockReading, post: TerminalState)
    requires
        in_shape(pre),
        csi_performed(pre, command, now, post),
    ensures
        rows_tracked(pre, post),
        in_shape(post),
{
    match (command.marker, command.intermediate) {
        (None, None) => {
            if moves_cursor(command.last) {
                lemma_cursor_commanded(pre, command.last, command.params, post);
            } else if changes_screen(command.last) {
                lemma_screen_commanded(pre, command.last, command.params, post);
            } else {
                lemma_setting_commanded(pre, command.last, command.params, post);
            }
        },
        (Some(marker), None) => {
            if marker == 0x3f && command.last == 0x68 {
                lemma_private_modes(pre, command.params, 0, true, now, post);
            } else if marker == 0x3f && command.last == 0x6c {
                lemma_private_modes(pre, command.params, 0, false, now, post);
            } else {
                lemma_kept(pre, post);
            }
        },
        _ => {
            lemma_kept(pre, post);
        },
    }
}

/// Ending a command changes no row.
proof fn lemma_record_finished(
    pre: TerminalState,
    index: int,
    exit_code: Option<i32>,
    duration_ms: Option<u64>,
    provenance: CompletionProvenance,
    now: ClockReading,
    post: TerminalState,
)
    requires
        record_finished(pre, index, exit_code, duration_ms, provenance, now, post),
    ensures
        screens_kept(pre, post),
{
    let zone = pre.log@.records[index].sequence;
    let (closed, mid) = choose|
        closed: Option<(FinishedOutputProvenance, BufferAnchor, BufferAnchor)>,
        mid: TerminalState,
    |
        {
            &&& #[trigger] output_closed(pre, zone, closed, mid)
            &&& post == TerminalState { log: post.log, ..mid }
        };
    assert(output_closed(pre, zone, closed, mid));
    let quiet = choose|quiet: TerminalState|
        {
            &&& #[trigger] only_active_changed(pre, None, quiet)
            &&& match closed {
                Some((provenance, _, _)) => output_registered(quiet, provenance, mid),
                None => mid == quiet,
            }
        };
    assert(only_active_changed(pre, None, quiet));
}

/// Opening a command changes no row.
proof fn lemma_record_pushed(pre: TerminalState, packet: PacketModel, post: TerminalState)
    requires
        record_pushed_and_marked(pre, packet, post),
    ensures
        screens_kept(pre, post),
{
    let mid = choose|mid: TerminalState|
        {
            &&& #[trigger] record_pushed(pre, packet, false, mid)
            &&& if pre.log@.next_sequence == 0 {
                post == mid
            } else {
                prompt_marked(mid, post)
            }
        };
    assert(record_pushed(pre, packet, false, mid));
}

/// A prompt mark changes no row.
proof fn lemma_prompt(
    pre: TerminalState,
    packet: PacketModel,
    now: ClockReading,
    post: TerminalState,
)
    requires
        prompt_started(pre, packet, now, post),
    ensures
        screens_kept(pre, post),
{
    let fresh = (LogModel { prompt_input: PromptInput::Clean, ..pre.log@ }).approval_abandoned(
        true,
    );
    if !pre.use_alt_buffer {
        let mid = choose|mid: TerminalState|
            {
                &&& #[trigger] only_log_changed(pre, fresh, mid)
                &&& if repeats_prompt(mid) {
                    only_log_changed(
                        mid,
                        log_with_packet(mid.log@, mid.log@.records.len() - 1, packet),
                        post,
                    )
                } else {
                    prompt_opened(mid, packet, now, post)
                }
            };
        if !repeats_prompt(mid) {
            let closed = choose|closed: TerminalState|
                {
                    &&& #[trigger] left_open_closed(mid, now, closed)
                    &&& record_pushed_and_marked(closed, packet, post)
                };
            assert(left_open_closed(mid, now, closed));
            match active_index(mid.log@.records) {
                Some(i) => {
                    lemma_record_finished(
                        mid,
                        i,
                        None,
                        None,
                        CompletionProvenance::BoundaryInferred,
                        now,
                        closed,
                    );
                },
                None => {},
            }
            lemma_record_pushed(closed, packet, post);
        }
    }
}

/// Making a command active changes no row.
proof fn lemma_ensured(pre: TerminalState, post: TerminalState)
    requires
        record_ensured(pre, post),
    ensures
        screens_kept(pre, post),
{
    if active_index(pre.log@.records) is None {
        lemma_record_pushed(pre, bare_packet(), post);
    }
}

/// An end mark changes no row.
proof fn lemma_ended(
    pre: TerminalState,
    packet: PacketModel,
    exit_code: Option<i32>,
    duration_ms: Option<u64>,
    now: ClockReading,
    post: TerminalState,
)
    requires
        command_ended(pre, packet, exit_code, duration_ms, now, post),
    ensures
        screens_kept(pre, post),
{
    if !pre.use_alt_buffer && ended_index(pre.log@, packet.id) is Some {
        let index = ended_index(pre.log@, packet.id)->0;
        let noted = log_with_packet(pre.log@, index, PacketModel { cwd: None, ..packet });
        let (s1, s2, s3) = choose|s1: TerminalState, s2: TerminalState, s3: TerminalState|
            {
                &&& #[trigger] only_log_changed(pre, noted, s1)
                &&& #[trigger] directory_after(s1, index, packet.cwd, s2)
                &&& #[trigger] record_finished(
                    s2,
                    index,
                    exit_code,
                    duration_ms,
                    CompletionProvenance::ShellReported,
                    now,
                    s3,
                )
                &&& newest_mark_closed(s3, exit_code, post)
            };
        lemma_record_finished(
            s2,
            index,
            exit_code,
            duration_ms,
            CompletionProvenance::ShellReported,
            now,
            s3,
        );
    }
}

/// A packet of the shell changes no row.
proof fn lemma_packet(
    pre: TerminalState,
    packet: Osc133Packet,
    now: ClockReading,
    post: TerminalState,
)
    requires
        packet_handled(pre, packet, now, post),
    ensures
        screens_kept(pre, post),
{
    let metadata = PacketModel {
        id: text_of(packet.id),
        command: text_of(packet.command),
        cwd: text_of(packet.cwd),
        truncated: packet.command_truncated,
    };
    if packet.kind@ == "A"@ {
        lemma_prompt(pre, metadata, now, post);
    } else if packet.kind@ == "B"@ {
        if !(pre.use_alt_buffer || !can_be_active(pre)) {
            let mid = choose|mid: TerminalState|
                {
                    &&& #[trigger] record_ensured(pre, mid)
                    &&& only_log_changed(
                        mid,
                        log_with_input(
                            mid.log@,
                            ensured_index(pre, mid),
                            metadata,
                            mid.cursor_anchor(),
                        ),
                        post,
                    )
                };
            lemma_ensured(pre, mid);
        }
    } else if packet.kind@ == "C"@ {
        if !(pre.use_alt_buffer || !can_be_active(pre)) {
            let identity = start_model(packet.start_identity);
            let mid = choose|mid: TerminalState|
                {
                    &&& #[trigger] record_ensured(pre, mid)
                    &&& output_marked(mid, ensured_index(pre, mid), metadata, identity, now, post)
                };
            lemma_ensured(pre, mid);
            assert(output_marked(mid, ensured_index(pre, mid), metadata, identity, now, post));
            assert(screens_kept(mid, post));
        }
    } else if packet.kind@ == "D"@ {
        lemma_ended(pre, metadata, packet.exit_code, packet.duration_ms, now, post);
    }
}

/// An operating-system command changes no row.
proof fn lemma_osc(pre: TerminalState, bytes: Seq<u8>, now: ClockReading, post: TerminalState)
    requires
        osc_bytes_performed(pre, bytes, now, post),
    ensures
        screens_kept(pre, post),
{
    match bytes_text(bytes) {
        Some(text) => {
            let command = osc_parts(text).0;
            let value = osc_parts(text).1;
            if command == "7"@ {
            } else if command == "8"@ {
            } else if command == "133"@ {
                let packet = choose|packet: Osc133Packet|
                    #[trigger] packet.reads(value) && packet_handled(pre, packet, now, post);
                lemma_packet(pre, packet, now, post);
            }
        },
        None => {},
    }
}

/// A full reset starts the versions over.
proof fn lemma_reset(pre: TerminalState, post: TerminalState)
    requires
        in_shape(pre),
        terminal_reset(pre, post),
    ensures
        rows_tracked(pre, post),
        in_shape(post),
{
    reveal(rows_tracked);
}

/// A short escape sequence stamps the rows that change.
proof fn lemma_escape(pre: TerminalState, byte: u8, post: TerminalState)
    requires
        in_shape(pre),
        escape_performed(pre, byte, post),
    ensures
        rows_tracked(pre, post),
        in_shape(post),
{
    if byte == 0x38 {
        lemma_restored(pre, post);
    } else if byte == 0x44 {
        assert(control_executed(pre, 0x0a, post));
        lemma_control(pre, 0x0a, post);
        lemma_text(pre, post);
    } else if byte == 0x45 {
        let mid = choose|mid: TerminalState| #[trigger]
            cursor_moved(pre, pre.cursor_row as int, 0, false, mid) && line_fed(mid, post);
        lemma_moved(pre, pre.cursor_row as int, 0, false, mid);
        assert(control_executed(mid, 0x0a, post));
        lemma_control(mid, 0x0a, post);
        lemma_text(mid, post);
        lemma_goes_on(pre, mid, post);
    } else if byte == 0x4d {
        lemma_reverse_indexed(pre, post);
    } else if byte == 0x63 {
        lemma_reset(pre, post);
    } else {
        lemma_kept(pre, post);
    }
}

/// Plain input stamps the rows that change.
proof fn lemma_plain(pre: TerminalState, data: Seq<u8>, i: int, post: TerminalState, next: int)
    requires
        in_shape(pre),
        0 <= i < data.len(),
        ground_step(pre, data, i, post, next),
    ensures
        rows_tracked(pre, post),
        in_shape(post),
{
    if data[i] == 0x1b {
        lemma_kept(pre, post);
    } else {
        lemma_ground(pre, data, i, post, next);
        lemma_text(pre, post);
    }
}

/// Every step of input stamps the rows that change.
proof fn lemma_step(
    pre: TerminalState,
    data: Seq<u8>,
    i: int,
    now: ClockReading,
    post: TerminalState,
    next: int,
)
    requires
        in_shape(pre),
        0 <= i < data.len(),
        input_step(pre, data, i, now, post, next),
    ensures
        rows_tracked(pre, post),
        in_shape(post),
{
    reveal(input_step);
    let byte = data[i];
    let pending = pre.parser.pending@;
    match pre.parser.mode {
        ParserMode::Ground => {
            lemma_plain(pre, data, i, post, next);
        },
        ParserMode::Escape => {
            if mode_begun(byte) is Some {
                lemma_kept(pre, post);
            } else {
                let mid = choose|mid: TerminalState|
                    {
                        &&& #[trigger] parsing(pre, ParserMode::Ground, Seq::empty(), mid)
                        &&& if is_short_escape(byte) {
                            next == i + 1 && escape_performed(mid, byte, post)
                        } else {
                            ground_step(mid, data, i, post, next)
                        }
                    };
                lemma_kept(pre, mid);
                if is_short_escape(byte) {
                    lemma_escape(mid, byte, post);
                } else {
                    lemma_plain(mid, data, i, post, next);
                }
                lemma_goes_on(pre, mid, post);
            }
        },
        ParserMode::Charset => {
            let mid = choose|mid: TerminalState|
                {
                    &&& #[trigger] charset_designated(pre, byte, mid)
                    &&& parsing(mid, ParserMode::Ground, Seq::empty(), post)
                };
            assert(charset_designated(pre, byte, mid));
            lemma_kept(pre, post);
        },
        ParserMode::Csi => {
            lemma_csi_step(pre, byte, now, post);
        },
        ParserMode::Osc => {
            if byte == 0x07 || ends_string(pending, byte) {
                let bytes = if byte == 0x07 {
                    pending.skip(2)
                } else {
                    pending.subrange(2, pending.len() - 1)
                };
                let mid = choose|mid: TerminalState|
                    {
                        &&& #[trigger] parsing(pre, ParserMode::Ground, Seq::empty(), mid)
                        &&& osc_bytes_performed(mid, bytes, now, post)
                    };
                lemma_osc(mid, bytes, now, post);
            }
            lemma_kept(pre, post);
        },
        ParserMode::Opaque => {
            lemma_kept(pre, post);
        },
    }
}

/// A byte of a control sequence stamps the rows that change.
proof fn lemma_csi_step(pre: TerminalState, byte: u8, now: ClockReading, post: TerminalState)
    requires
        in_shape(pre),
        csi_step(pre, byte, now, post),
    ensures
        rows_tracked(pre, post),
        in_shape(post),
{
    if 0x40 <= byte <= 0x7e {
        let command = csi_model(pre.parser.pending@.skip(2), byte);
        let mid = choose|mid: TerminalState|
            {
                &&& #[trigger] parsing(pre, ParserMode::Ground, Seq::empty(), mid)
                &&& csi_performed(mid, command, now, post)
            };
        lemma_kept(pre, mid);
        lemma_csi(mid, command, now, post);
        lemma_goes_on(pre, mid, post);
    } else if byte < 0x20 && byte != 0x1b && byte != 0x18 && byte != 0x1a {
        lemma_control(pre, byte, post);
        lemma_text(pre, post);
    } else {
        lemma_kept(pre, post);
    }
}

/// Input stamps the rows that change.
proof fn lemma_input(
    pre: TerminalState,
    data: Seq<u8>,
    i: int,
    now: ClockReading,
    post: TerminalState,
)
    requires
        in_shape(pre),
        0 <= i,
        input_run(pre, data, i, now, post),
    ensures
        rows_tracked(pre, post),
    decreases data.len() - i,
{
    if i >= data.len() {
        lemma_kept(pre, post);
    } else {
        let (mid, next) = choose|mid: TerminalState, next: int|
            {
                &&& i < next <= data.len()
                &&& #[trigger] input_step(pre, data, i, now, mid, next)
                &&& input_run(mid, data, next, now, post)
            };
        lemma_step(pre, data, i, now, mid, next);
        lemma_input(mid, data, next, now, post);
        lemma_goes_on(pre, mid, post);
    }
}

/// Every row that changed is listed, where its stamp is newer.
proof fn lemma_listed(versions: Seq<u64>, since: u64, r: int)
    requires
        0 <= r < versions.len() <= usize::MAX,
        versions[r] > since,
    ensures
        changed_rows(versions, since).contains(r as usize),
    decreases versions.len(),
{
    let head = changed_rows(versions.drop_last(), since);
    let all = changed_rows(versions, since);
    if r == versions.len() - 1 {
        assert(all[all.len() - 1] == r as usize);
    } else {
        lemma_listed(versions.drop_last(), since, r);
        let k = choose|k: int| 0 <= k < head.len() && head[k] == r as usize;
        assert(all[k] == r as usize);
    }
}

/// After a batch of input, whatever it holds and whatever was pending before
/// it, the rows that changed since the version before it are all listed, unless
/// a full reset started the versions over. A batch counts as one version.
pub proof fn changed_rows_are_listed(
    pre: TerminalState,
    data: Seq<u8>,
    now: ClockReading,
    post: TerminalState,
    r: int,
)
    requires
        pre.core_wf(),
        input_processed(pre, data, now, post),
        pre.grid_version < u64::MAX,
        0 <= r < pre.rows(),
        post.grid@[r].cells != pre.grid@[r].cells,
    ensures
        post.grid_version == pre.grid_version + 1 ==> changed_rows(
            post.row_versions@,
            pre.grid_version,
        ).contains(r as usize),
        post.grid_version == pre.grid_version + 1 || post.grid_version == 1,
{
    let (begun, done) = choose|begun: TerminalState, done: TerminalState|
        {
            &&& #[trigger] batch_begun(pre, begun)
            &&& #[trigger] input_run(begun, pre.parser.utf8@ + data, 0, now, done)
            &&& batch_ended(done, post)
        };
    assert(in_shape(begun));
    lemma_input(begun, pre.parser.utf8@ + data, 0, now, done);
    reveal(rows_tracked);
    if post.grid_version == pre.grid_version + 1 {
        assert(post.row_versions@[r] == pre.grid_version + 1) by {
            if forall|k: int| 0 <= k < begun.grid@.len() ==> #[trigger]
                row_accounted(begun, done, k) {
                assert(row_accounted(begun, done, r));
            }
        }
        assert(post.row_versions@.len() <= usize::MAX);
        lemma_listed(post.row_versions@, pre.grid_version, r);
    }
}

/// What a batch of input does to the history and to the remembered document.
proof fn lemma_batch(pre: TerminalState, data: Seq<u8>, now: ClockReading, post: TerminalState)
    requires
        pre.core_wf(),
        input_processed(pre, data, now, post),
    ensures
        post.grid@.len() == pre.grid@.len(),
        (history_fed(pre, post) && plan_kept(pre, post)) || (post.grid_version == 1
            && post.caches.plan is None),
{
    let (begun, done) = choose|begun: TerminalState, done: TerminalState|
        {
            &&& #[trigger] batch_begun(pre, begun)
            &&& #[trigger] input_run(begun, pre.parser.utf8@ + data, 0, now, done)
            &&& batch_ended(done, post)
        };
    assert(in_shape(begun));
    lemma_input(begun, pre.parser.utf8@ + data, 0, now, done);
    reveal(rows_tracked);
    lemma_history_kept(pre, begun);
    lemma_history_kept(done, post);
    if history_fed(begun, done) {
        feeding_goes_on(pre, begun, done);
        feeding_goes_on(pre, done, post);
    }
}

/// Input does nothing to the history but append rows to it and let the oldest
/// go, whatever it holds and whatever was pending before it, unless a full reset
/// started over.
pub proof fn input_feeds_the_history(
    pre: TerminalState,
    data: Seq<u8>,
    now: ClockReading,
    post: TerminalState,
)
    requires
        pre.core_wf(),
        input_processed(pre, data, now, post),
    ensures
        history_fed(pre, post) || post.grid_version == 1,
        post.grid@.len() == pre.grid@.len(),
{
    lemma_batch(pre, data, now, post);
}

/// A remembered document that can be traced through the output can be traced
/// through more of it, whatever the input holds.
pub proof fn input_keeps_documents_traceable(
    pre: TerminalState,
    data: Seq<u8>,
    now: ClockReading,
    post: TerminalState,
)
    requires
        pre.core_wf(),
        document_follows(pre),
        input_processed(pre, data, now, post),
    ensures
        document_follows(post),
{
    lemma_batch(pre, data, now, post);
    if post.caches.plan is Some {
        let cache = post.caches.plan->0;
        let (old, cols, policy_revision, ids) = choose|
            old: TerminalState,
            cols: usize,
            policy_revision: u64,
            ids: Seq<u64>,
        | #[trigger]
            made_for(cache, old, cols, policy_revision, ids) && history_fed(old, pre);
        feeding_goes_on(old, pre, post);
        assert(made_for(cache, old, cols, policy_revision, ids) && history_fed(old, post));
    }
}

} // verus!
