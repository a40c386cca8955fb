//! A cell of a view shows the cell that it comes from.

use vstd::prelude::*;

use crate::cell::TerminalCell;
use crate::document::RawCellAnchor;
use crate::fold_laws::lemma_countable;
use crate::fold_laws::plans_hide_outputs_alone;
use crate::fold_laws::shows_cell;
use crate::fold_laws::shows_cell_at;
use crate::geometry::chunk_places;
use crate::geometry::describes;
use crate::geometry::line_places;
use crate::geometry::origin_at;
use crate::geometry::places;
use crate::geometry::reflowed_places;
use crate::geometry::screen_places;
use crate::geometry::view_places;
use crate::geometry::Place;
use crate::geometry::RowPlaces;
use crate::grid::Line;
use crate::grid::RawRowId;
use crate::history::content_len;
use crate::history::lemma_content_len_bounds;
use crate::layout::lemma_logical_end;
use crate::line_order::cells_are_countable;
use crate::materialize::materialized;
use crate::materialize::rows_shown;
use crate::materialize::shown_cell;
use crate::materialize::window_rows;
use crate::materialize::MaterializedProjection;
use crate::navigation::view_beginning;
use crate::placing::lemma_line_begins;
use crate::plan::broken;
use crate::plan::fitting;
use crate::plan::glyph_row;
use crate::plan::glyphs_cells;
use crate::plan::glyphs_from;
use crate::plan::glyphs_of;
use crate::plan::history_rows;
use crate::plan::logical_rows;
use crate::plan::screen_row;
use crate::plan::screen_rows;
use crate::plan::Glyph;
use crate::plan::PlanModel;
use crate::plan::PlanRowModel;
use crate::plan::ResolvedCollapse;
use crate::plan::SourceCell;
use crate::planning::is_plan_of;
use crate::planning::plain_rows;
use crate::planning::plan_key;
use crate::projected::is_folded_view;
use crate::projection::OriginSpan;
use crate::projection::RawRowSource;
use crate::showing::lemma_fresh_is_sound;
use crate::showing::sound_documents_show_cells_once;
use crate::state::saturating_sum;
use crate::state::TerminalState;
use crate::view::cells_of;
use crate::view::chunk;
use crate::view::chunks;
use crate::view::content;
use crate::view::joined;
use crate::view::logical_end;
use crate::view::reflowed;
use crate::view::visible_rows;
use crate::view::window;
use crate::viewport::ProjectedViewport;

verus! {

/// Whether a cell of a view that comes from a place shows what is there.
spec fn shows_place(
    rows: Seq<Seq<TerminalCell>>,
    origins: Seq<RowPlaces>,
    lines: Seq<Line>,
    r: int,
    c: int,
) -> bool {
    origins[r].cells[c] matches Some(place) ==> {
        &&& c < rows[r].len()
        &&& place.row < lines.len()
        &&& place.column < lines[place.row as int].cells.len()
        &&& rows[r][c] == lines[place.row as int].cells[place.column as int]
    }
}

/// Whether rows of a view show what is at the places that they come from.
spec fn rows_match(
    rows: Seq<Seq<TerminalCell>>,
    origins: Seq<RowPlaces>,
    lines: Seq<Line>,
) -> bool {
    &&& rows.len() == origins.len()
    &&& forall|r: int, c: int|
        0 <= r < origins.len() && 0 <= c < origins[r].cells.len() ==> #[trigger] shows_place(
            rows,
            origins,
            lines,
            r,
            c,
        )
}

/// The cells of a logical line are those at its places.
proof fn lemma_joined(lines: Seq<Line>, from: int, to: int)
    requires
        0 <= from <= to <= lines.len(),
        lines.len() <= usize::MAX,
        cells_are_countable(lines),
    ensures
        places(lines, from, to).len() == joined(lines, from, to).len(),
        forall|i: int|
            #![trigger places(lines, from, to)[i]]
            0 <= i < places(lines, from, to).len() ==> {
                let place = places(lines, from, to)[i];
                &&& place.row < lines.len()
                &&& place.column < lines[place.row as int].cells.len()
                &&& joined(lines, from, to)[i]
                    == lines[place.row as int].cells[place.column as int]
            },
    decreases to - from,
{
    if from < to {
        lemma_joined(lines, from, to - 1);
        lemma_content_len_bounds(lines[to - 1].cells);
        assert(lines[to - 1].cells.len() <= usize::MAX);
        let head = places(lines, from, to - 1);
        let own = Seq::new(
            content_len(lines[to - 1].cells) as nat,
            |c: int| Place { row: (to - 1) as usize, column: c as usize },
        );
        let n = head.len() as int;
        assert(places(lines, from, to) == head + own);
        assert(joined(lines, from, to) == joined(lines, from, to - 1) + content(lines[to - 1]));
        assert forall|i: int|
            #![trigger places(lines, from, to)[i]]
            0 <= i < places(lines, from, to).len() implies {
            let place = places(lines, from, to)[i];
            &&& place.row < lines.len()
            &&& place.column < lines[place.row as int].cells.len()
            &&& joined(lines, from, to)[i] == lines[place.row as int].cells[place.column as int]
        } by {
            if i < n {
                assert(places(lines, from, to)[i] == head[i]);
            } else {
                assert(places(lines, from, to)[i] == own[i - n]);
                assert(joined(lines, from, to)[i] == content(lines[to - 1])[i - n]);
            }
        }
    }
}

/// The rows of a logical line show what is at their places.
proof fn lemma_chunks_match(
    lines: Seq<Line>,
    from: int,
    next: int,
    cols: int,
    blank: TerminalCell,
)
    requires
        0 <= from <= next <= lines.len(),
        lines.len() <= usize::MAX,
        cells_are_countable(lines),
        cols > 0,
    ensures
        rows_match(
            chunks(joined(lines, from, next), cols, blank),
            line_places(lines, from, next, cols),
            lines,
        ),
{
    let cells = joined(lines, from, next);
    let all = places(lines, from, next);
    lemma_joined(lines, from, next);
    let rows = chunks(cells, cols, blank);
    let origins = line_places(lines, from, next, cols);
    assert forall|r: int, c: int|
        0 <= r < origins.len() && 0 <= c < origins[r].cells.len() implies #[trigger] shows_place(
        rows,
        origins,
        lines,
        r,
        c,
    ) by {
        assert(origins[r] == chunk_places(all, from, r, cols));
        assert(rows[r] == chunk(cells, r, cols, blank));
        assert(0 <= r * cols) by (nonlinear_arith)
            requires
                r >= 0,
                cols > 0,
        ;
        if r * cols + c < all.len() {
            let place = all[r * cols + c];
            assert(place.row < lines.len());
        }
    }
}

/// Rows that match may follow each other.
proof fn lemma_match_join(
    a: Seq<Seq<TerminalCell>>,
    b: Seq<Seq<TerminalCell>>,
    x: Seq<RowPlaces>,
    y: Seq<RowPlaces>,
    lines: Seq<Line>,
)
    requires
        rows_match(a, x, lines),
        rows_match(b, y, lines),
    ensures
        rows_match(a + b, x + y, lines),
{
    let n = a.len() as int;
    assert forall|r: int, c: int|
        0 <= r < (x + y).len() && 0 <= c < (x + y)[r].cells.len() implies #[trigger] shows_place(
        a + b,
        x + y,
        lines,
        r,
        c,
    ) by {
        if r < n {
            assert((x + y)[r] == x[r] && (a + b)[r] == a[r]);
            assert(shows_place(a, x, lines, r, c));
        } else {
            assert((x + y)[r] == y[r - n] && (a + b)[r] == b[r - n]);
            assert(shows_place(b, y, lines, r - n, c));
        }
    }
}

/// Reflowed rows show what is at their places.
proof fn lemma_reflowed_match(
    lines: Seq<Line>,
    from: int,
    end: int,
    cols: int,
    blank: TerminalCell,
)
    requires
        0 <= from <= end <= lines.len(),
        lines.len() <= usize::MAX,
        cells_are_countable(lines),
        cols > 0,
    ensures
        rows_match(
            reflowed(lines, from, end, cols, blank),
            reflowed_places(lines, from, end, cols),
            lines,
        ),
    decreases end - from,
{
    if from < end {
        let next = logical_end(lines, from, end);
        lemma_logical_end(lines, from, end);
        lemma_chunks_match(lines, from, next, cols, blank);
        lemma_reflowed_match(lines, next, end, cols, blank);
        lemma_match_join(
            chunks(joined(lines, from, next), cols, blank),
            reflowed(lines, next, end, cols, blank),
            line_places(lines, from, next, cols),
            reflowed_places(lines, next, end, cols),
            lines,
        );
    }
}

/// The rows of a view show what is at the places that they come from.
proof fn lemma_view_matches(state: TerminalState)
    requires
        state.core_wf(),
    ensures
        rows_match(
            visible_rows(state, state.scroll_offset as int),
            view_places(state),
            state.document(),
        ),
{
    let lines = state.history();
    let document = state.document();
    let h = lines.len() as int;
    let cols = state.cols();
    let offset = state.scroll_offset as int;
    let height = state.rows();
    let rows = visible_rows(state, offset);
    let origins = view_places(state);
    lemma_countable(state);
    let same = TerminalState { scroll_offset: offset as usize, ..state };
    assert(same == state);
    let full = if offset == 0 {
        Seq::<Seq<TerminalCell>>::empty()
    } else {
        reflowed(lines, view_beginning(state), h, cols, state.blank())
    };
    let places = if offset == 0 {
        Seq::<RowPlaces>::empty()
    } else {
        reflowed_places(lines, view_beginning(state), h, cols)
    };
    if offset != 0 {
        lemma_line_begins(
            lines,
            if h < offset + height {
                0
            } else {
                h - (offset + height)
            },
        );
        lemma_reflowed_match(lines, view_beginning(state), h, cols, state.blank());
    }
    let back = if full.len() < offset {
        0
    } else {
        full.len() - offset
    };
    let n = if offset == 0 {
        0
    } else {
        window(full, offset, height).len() as int
    };
    assert forall|r: int, c: int|
        0 <= r < origins.len() && 0 <= c < origins[r].cells.len() implies #[trigger] shows_place(
        rows,
        origins,
        document,
        r,
        c,
    ) by {
        if r < n {
            assert(origins[r] == places[back + r]);
            assert(rows[r] == full[back + r]);
            assert(shows_place(full, places, lines, back + r, c));
            if let Some(place) = origins[r].cells[c] {
                assert(document[place.row as int] == lines[place.row as int]);
            }
        } else if r - n < height {
            assert(origins[r] == screen_places(state, r - n));
            assert(rows[r] == cells_of(state.grid@)[r - n]);
            assert(document[h + (r - n)] == state.grid@[r - n]);
        }
    }
}

/// Whether a row of the terminal with the identity of an anchor has the
/// anchor's cell, and that is `cell`, or `cell` with another width.
pub open spec fn is_cell_at(
    state: TerminalState,
    anchor: RawCellAnchor,
    cell: TerminalCell,
) -> bool {
    exists|row: int|
        {
            &&& 0 <= row < state.document().len()
            &&& (#[trigger] state.document()[row]).id == anchor.row_id
            &&& anchor.column < state.document()[row].cells.len()
            &&& cell == TerminalCell {
                flags: cell.flags,
                ..state.document()[row].cells[anchor.column as int]
            }
        }
}

/// A cell of a view without folding that comes from a cell of the terminal
/// shows that cell.
pub proof fn plain_views_show_their_origins(
    state: TerminalState,
    origins: Seq<OriginSpan>,
    sources: Seq<Option<RawRowSource>>,
    r: int,
    c: int,
)
    requires
        state.core_wf(),
        describes(state, view_places(state), origins, sources),
        origin_at(origins, r, c) is Some,
    ensures
        0 <= r < visible_rows(state, state.scroll_offset as int).len(),
        0 <= c < visible_rows(state, state.scroll_offset as int)[r].len(),
        is_cell_at(
            state,
            origin_at(origins, r, c)->0,
            visible_rows(state, state.scroll_offset as int)[r][c],
        ),
{
    let rows = visible_rows(state, state.scroll_offset as int);
    let view = view_places(state);
    lemma_view_matches(state);
    let place = view[r].cells[c]->0;
    assert(shows_place(rows, view, state.document(), r, c));
    assert(state.document()[place.row as int].id == origin_at(origins, r, c)->0.row_id);
}

/// Whether a line number and an identity are those of one of the lines
/// `from..to`.
spec fn names_line(
    lines: Seq<Line>,
    first: u64,
    from: int,
    to: int,
    line: u64,
    id: RawRowId,
) -> bool {
    exists|k: int|
        from <= k < to && saturating_sum(first, k) == line && (#[trigger] lines[k]).id == id
}

/// Whether rows show nothing but cells of the lines `from..to`, by number and
/// identity.
spec fn rows_name(
    rows: Seq<PlanRowModel>,
    lines: Seq<Line>,
    first: u64,
    from: int,
    to: int,
) -> bool {
    forall|r: int, j: int, cell: SourceCell| #[trigger]
        shows_cell_at(rows, r, j, cell) ==> names_line(
            lines,
            first,
            from,
            to,
            cell.line,
            cell.row,
        )
}

/// Whether characters are those of the lines `from..to`.
spec fn glyphs_name(glyphs: Seq<Glyph>, lines: Seq<Line>, first: u64, from: int, to: int) -> bool {
    forall|i: int|
        0 <= i < glyphs.len() ==> names_line(
            lines,
            first,
            from,
            to,
            (#[trigger] glyphs[i]).line,
            glyphs[i].row,
        )
}

/// The characters of a row are of its line.
proof fn lemma_row_names(lines: Seq<Line>, first: u64, r: int, c: int, len: int)
    requires
        0 <= r < lines.len(),
    ensures
        glyphs_name(
            glyphs_from(lines[r], saturating_sum(first, r), c, len),
            lines,
            first,
            r,
            r + 1,
        ),
    decreases len - c,
{
    if c < len {
        let number = saturating_sum(first, r);
        let wide = c + 1 < len && lines[r].cells[c + 1].flags.spec_continuation();
        let next = if wide {
            c + 2
        } else {
            c + 1
        };
        lemma_row_names(lines, first, r, next, len);
        let rest = glyphs_from(lines[r], number, next, len);
        let all = glyphs_from(lines[r], number, c, len);
        assert forall|i: int| 0 <= i < all.len() implies names_line(
            lines,
            first,
            r,
            r + 1,
            (#[trigger] all[i]).line,
            all[i].row,
        ) by {
            if i > 0 {
                assert(all[i] == rest[i - 1]);
            } else {
                assert(lines[r].id == all[i].row);
            }
        }
    }
}

/// The characters of lines are of these lines.
proof fn lemma_lines_name(lines: Seq<Line>, first: u64, from: int, to: int)
    requires
        0 <= from <= to <= lines.len(),
    ensures
        glyphs_name(glyphs_of(lines, first, from, to), lines, first, from, to),
    decreases to - from,
{
    if from < to {
        let len = content_len(lines[from].cells);
        lemma_row_names(lines, first, from, 0, len);
        lemma_lines_name(lines, first, from + 1, to);
        let a = glyphs_from(lines[from], saturating_sum(first, from), 0, len);
        let b = glyphs_of(lines, first, from + 1, to);
        let all = glyphs_of(lines, first, from, to);
        let n = a.len() as int;
        assert(all == a + b);
        assert forall|i: int| 0 <= i < all.len() implies names_line(
            lines,
            first,
            from,
            to,
            (#[trigger] all[i]).line,
            all[i].row,
        ) by {
            if i < n {
                assert(all[i] == a[i]);
                let k = choose|k: int|
                    from <= k < from + 1 && saturating_sum(first, k) == all[i].line && (
                    #[trigger] lines[k]).id == all[i].row;
                assert(lines[k].id == all[i].row);
            } else {
                assert(all[i] == b[i - n]);
                let k = choose|k: int|
                    from + 1 <= k < to && saturating_sum(first, k) == all[i].line && (
                    #[trigger] lines[k]).id == all[i].row;
                assert(lines[k].id == all[i].row);
            }
        }
    }
}

/// The cells of characters are of their lines.
proof fn lemma_cells_name(
    glyphs: Seq<Glyph>,
    cols: int,
    lines: Seq<Line>,
    first: u64,
    from: int,
    to: int,
)
    requires
        glyphs_name(glyphs, lines, first, from, to),
    ensures
        forall|k: int|
            0 <= k < glyphs_cells(glyphs, cols).len() ==> names_line(
                lines,
                first,
                from,
                to,
                (#[trigger] glyphs_cells(glyphs, cols)[k]).line,
                glyphs_cells(glyphs, cols)[k].row,
            ),
    decreases glyphs.len(),
{
    if glyphs.len() > 0 {
        let head = glyphs.drop_last();
        assert forall|i: int| 0 <= i < head.len() implies names_line(
            lines,
            first,
            from,
            to,
            (#[trigger] head[i]).line,
            head[i].row,
        ) by {
            assert(head[i] == glyphs[i]);
        }
        lemma_cells_name(head, cols, lines, first, from, to);
        let before = glyphs_cells(head, cols);
        let all = glyphs_cells(glyphs, cols);
        let last = glyphs[glyphs.len() - 1];
        assert forall|k: int| 0 <= k < all.len() implies names_line(
            lines,
            first,
            from,
            to,
            (#[trigger] all[k]).line,
            all[k].row,
        ) by {
            if k < before.len() {
                assert(all[k] == before[k]);
            } else {
                assert(all[k].line == last.line && all[k].row == last.row);
            }
        }
    }
}

/// Characters broken into rows are of their lines.
proof fn lemma_broken_name(
    glyphs: Seq<Glyph>,
    cols: int,
    lines: Seq<Line>,
    first: u64,
    from: int,
    to: int,
)
    requires
        glyphs_name(glyphs, lines, first, from, to),
    ensures
        forall|k: int|
            0 <= k < broken(glyphs, cols).len() ==> glyphs_name(
                #[trigger] broken(glyphs, cols)[k],
                lines,
                first,
                from,
                to,
            ),
    decreases glyphs.len(),
{
    let n = fitting(glyphs, cols, cols);
    if glyphs.len() > 0 {
        if n < 1 || n > glyphs.len() {
            assert(broken(glyphs, cols) == seq![glyphs]);
        } else {
            let head = glyphs.take(n);
            let tail = glyphs.skip(n);
            assert forall|i: int| 0 <= i < tail.len() implies names_line(
                lines,
                first,
                from,
                to,
                (#[trigger] tail[i]).line,
                tail[i].row,
            ) by {
                assert(tail[i] == glyphs[n + i]);
            }
            assert forall|i: int| 0 <= i < head.len() implies names_line(
                lines,
                first,
                from,
                to,
                (#[trigger] head[i]).line,
                head[i].row,
            ) by {
                assert(head[i] == glyphs[i]);
            }
            lemma_broken_name(tail, cols, lines, first, from, to);
            let all = broken(glyphs, cols);
            assert(all == seq![head] + broken(tail, cols));
            assert forall|k: int| 0 <= k < all.len() implies glyphs_name(
                #[trigger] all[k],
                lines,
                first,
                from,
                to,
            ) by {
                if k > 0 {
                    assert(all[k] == broken(tail, cols)[k - 1]);
                }
            }
        }
    }
}

/// The rows of the history show cells of its lines.
proof fn lemma_history_names(lines: Seq<Line>, first: u64, from: int, end: int, cols: int)
    requires
        0 <= from <= end <= lines.len(),
    ensures
        rows_name(history_rows(lines, first, from, end, cols), lines, first, from, end),
    decreases end - from,
{
    if from < end {
        let next = logical_end(lines, from, end);
        lemma_logical_end(lines, from, end);
        lemma_history_names(lines, first, next, end, cols);
        lemma_lines_name(lines, first, from, next);
        let glyphs = glyphs_of(lines, first, from, next);
        let groups = broken(glyphs, cols);
        lemma_broken_name(glyphs, cols, lines, first, from, next);
        let own = logical_rows(lines, first, from, next, cols);
        let rest = history_rows(lines, first, next, end, cols);
        let all = history_rows(lines, first, from, end, cols);
        let n = own.len() as int;
        assert(all == own + rest);
        assert forall|r: int, j: int, cell: SourceCell| #[trigger]
            shows_cell_at(all, r, j, cell) implies names_line(
            lines,
            first,
            from,
            end,
            cell.line,
            cell.row,
        ) by {
            if r < n {
                assert(all[r] == own[r]);
                if glyphs.len() > 0 {
                    assert(own[r] == glyph_row(groups[r], cols, r + 1 < groups.len()));
                    assert(glyphs_name(groups[r], lines, first, from, next));
                    lemma_cells_name(groups[r], cols, lines, first, from, next);
                    assert(glyphs_cells(groups[r], cols)[j] == cell);
                    let k = choose|k: int|
                        from <= k < next && saturating_sum(first, k) == cell.line && (
                        #[trigger] lines[k]).id == cell.row;
                    assert(lines[k].id == cell.row);
                }
            } else {
                assert(shows_cell_at(rest, r - n, j, cell));
                let k = choose|k: int|
                    next <= k < end && saturating_sum(first, k) == cell.line && (
                    #[trigger] lines[k]).id == cell.row;
                assert(lines[k].id == cell.row);
            }
        }
    }
}

/// A document that folds nothing shows cells of the rows of the terminal.
proof fn lemma_document_names(state: TerminalState, cols: usize)
    requires
        state.scrollback@.len() <= state.total_lines_scrolled,
        state.total_lines_scrolled + state.grid@.len() <= u64::MAX,
    ensures
        rows_name(
            plain_rows(state, cols),
            state.document(),
            state.first_line_id() as u64,
            0,
            state.document().len() as int,
        ),
{
    let lines = state.document();
    let history = state.history();
    let first = state.first_line_id() as u64;
    let h = history.len() as int;
    let c = cols as int;
    let edge = saturating_sum(first, h);
    lemma_history_names(history, first, 0, h, c);
    let upper = history_rows(history, first, 0, h, c);
    let lower = screen_rows(state.grid@, edge, c);
    let all = plain_rows(state, cols);
    let n = upper.len() as int;
    assert(all == upper + lower);
    assert forall|r: int, j: int, cell: SourceCell| #[trigger]
        shows_cell_at(all, r, j, cell) implies names_line(
        lines,
        first,
        0,
        lines.len() as int,
        cell.line,
        cell.row,
    ) by {
        if r < n {
            assert(shows_cell_at(upper, r, j, cell));
            let k = choose|k: int|
                0 <= k < h && saturating_sum(first, k) == cell.line && (#[trigger] history[k]).id
                    == cell.row;
            assert(lines[k] == history[k]);
        } else {
            let q = r - n;
            assert(all[r] == screen_row(state.grid@[q], saturating_sum(edge, q), c));
            assert(lines[h + q] == state.grid@[q]);
            assert(saturating_sum(first, h + q) == cell.line);
        }
    }
}

/// A cell of a view of a folded document that comes from a cell of the
/// terminal shows that cell, as long as line numbers have not run out.
pub proof fn folded_views_show_their_origins(
    state: TerminalState,
    cols: usize,
    collapses: Seq<ResolvedCollapse>,
    policy_revision: u64,
    plan: PlanModel,
    start: int,
    view: ProjectedViewport,
    r: int,
    c: int,
)
    requires
        state.core_wf(),
        cols >= 1,
        0 <= start,
        state.total_lines_scrolled + state.grid@.len() <= u64::MAX,
        is_plan_of(state, cols, collapses, policy_revision, plan),
        is_folded_view(state, plan, view.data.key.scroll_offset, start, *view.data),
        origin_at(view.data.origins@, r, c) is Some,
    ensures
        0 <= r < view.data.cells@.len(),
        0 <= c < view.data.cells@[r]@.len(),
        is_cell_at(state, origin_at(view.data.origins@, r, c)->0, view.data.cells@[r]@[c]),
{
    let height = state.rows();
    let shown = choose|shown: MaterializedProjection|
        {
            &&& #[trigger] materialized(state, plan, start, height, shown)
            &&& view.data.cells@ == shown.cells@
            &&& view.data.row_wrapped@ == shown.row_wrapped@
            &&& view.data.row_kinds@ == shown.row_kinds@
            &&& view.data.row_sources@ == shown.row_sources@
            &&& view.data.origins@ == shown.origins@
            &&& view.data.document_start == shown.document_start
            &&& view.data.top_padding == shown.top_padding
        };
    assert(materialized(state, plan, start, height, shown));
    let rows = window_rows(plan, start, height);
    let up = height - rows_shown(plan.rows.len() as int, start, height);
    let cell = rows[r].cells[c]->0;
    assert(rows[r].cells[c] == Some(cell));
    assert(r >= up);
    assert(rows[r] == plan.rows[start + (r - up)]);
    plans_hide_outputs_alone(state, cols, collapses, policy_revision, plan);
    lemma_fresh_is_sound(
        state,
        cols,
        collapses,
        policy_revision,
        plan,
        plan_key(state, cols, policy_revision, Seq::empty()),
    );
    sound_documents_show_cells_once(
        plan_key(state, cols, policy_revision, Seq::empty()),
        plan,
    );
    assert(shows_cell_at(plan.rows, start + (r - up), c, cell));
    assert(shows_cell(plan.rows, cell, c));
    assert(shows_cell(plain_rows(state, cols), cell, c));
    let q = choose|q: int| #[trigger] shows_cell_at(plain_rows(state, cols), q, c, cell);
    lemma_document_names(state, cols);
    assert(shows_cell_at(plain_rows(state, cols), q, c, cell));
    let lines = state.document();
    let first = state.first_line_id() as u64;
    let k = choose|k: int|
        0 <= k < lines.len() && saturating_sum(first, k) == cell.line && (#[trigger] lines[k]).id
            == cell.row;
    assert(state.absolute_of_line(cell.line) == Some(k));
    assert(shown.cells@[r]@[c] == shown_cell(state, rows[r].cells[c]));
    assert(state.document()[k].id == cell.row);
}

} // verus!
