//! A document shows no cell twice.

use vstd::prelude::*;

use crate::fold_laws::cells_once;
use crate::fold_laws::folding_shows_cells_once;
use crate::fold_laws::lemma_countable;
use crate::fold_laws::shows_cell_at;
use crate::folding::all_folded;
use crate::grid::Line;
use crate::grid::RawRowId;
use crate::history::content_len;
use crate::history::lemma_content_len_bounds;
use crate::layout::lemma_logical_end;
use crate::line_order::cells_are_countable;
use crate::line_order::have_width;
use crate::plan::broken;
use crate::plan::fitting;
use crate::plan::glyph_cells;
use crate::plan::glyph_row;
use crate::plan::glyph_rows;
use crate::plan::glyphs_cells;
use crate::plan::glyphs_from;
use crate::plan::glyphs_of;
use crate::plan::history_rows;
use crate::plan::identity_rows;
use crate::plan::logical_rows;
use crate::plan::screen_row;
use crate::plan::screen_rows;
use crate::plan::Glyph;
use crate::plan::PlanModel;
use crate::plan::PlanRowModel;
use crate::plan::ResolvedCollapse;
use crate::plan::SourceCell;
use crate::planning::ids_of;
use crate::planning::is_plan_of;
use crate::planning::wraps_of;
use crate::projection::PlanKeyModel;
use crate::state::once;
use crate::state::rows_named_once;
use crate::state::saturating_sum;
use crate::state::TerminalState;
use crate::view::logical_end;

verus! {

/// Whether one cell comes before another of the same row; cells of different
/// rows, or of rows without identities, are not compared.
spec fn cell_leads(a: SourceCell, b: SourceCell) -> bool {
    a.row.raw == 0 || a.row != b.row || a.column < b.column
}

/// Whether the cells of each row of the terminal are shown in their order.
spec fn rows_spread(rows: Seq<PlanRowModel>) -> bool {
    forall|r: int, j: int, q: int, k: int, a: SourceCell, b: SourceCell|
        #[trigger] shows_cell_at(rows, r, j, a) && #[trigger] shows_cell_at(rows, q, k, b) && (r < q || (r
            == q && j < k)) ==> cell_leads(a, b)
}

/// Whether an identity is that of one of the lines `from..to`.
spec fn is_id_of(lines: Seq<Line>, from: int, to: int, id: RawRowId) -> bool {
    exists|k: int| from <= k < to && (#[trigger] lines[k]).id == id
}

/// Whether rows show nothing but cells of the lines `from..to`.
spec fn show_lines(rows: Seq<PlanRowModel>, lines: Seq<Line>, from: int, to: int) -> bool {
    forall|r: int, j: int, a: SourceCell| #[trigger]
        shows_cell_at(rows, r, j, a) ==> is_id_of(lines, from, to, a.row)
}

/// Different lines have different identities.
proof fn lemma_ids_differ(
    lines: Seq<Line>,
    from: int,
    mid: int,
    to: int,
    a: RawRowId,
    b: RawRowId,
)
    requires
        once(lines),
        0 <= from <= mid <= to <= lines.len(),
        is_id_of(lines, from, mid, a),
        is_id_of(lines, mid, to, b),
    ensures
        a.raw == 0 || a != b,
{
    let i = choose|i: int| from <= i < mid && (#[trigger] lines[i]).id == a;
    let j = choose|j: int| mid <= j < to && (#[trigger] lines[j]).id == b;
    assert(lines[i].id.raw == 0 || lines[i].id != lines[j].id);
}

/// Rows of different lines may follow each other.
proof fn lemma_spread_join(
    a: Seq<PlanRowModel>,
    b: Seq<PlanRowModel>,
    lines: Seq<Line>,
    from: int,
    mid: int,
    to: int,
)
    requires
        once(lines),
        0 <= from <= mid <= to <= lines.len(),
        rows_spread(a),
        rows_spread(b),
        show_lines(a, lines, from, mid),
        show_lines(b, lines, mid, to),
    ensures
        rows_spread(a + b),
        show_lines(a + b, lines, from, to),
{
    let all = a + b;
    let n = a.len() as int;
    assert forall|r: int, j: int, q: int, k: int, x: SourceCell, y: SourceCell|
        #[trigger] shows_cell_at(all, r, j, x) && #[trigger] shows_cell_at(all, q, k, y) && (r < q || (r == q
            && j < k)) implies cell_leads(x, y) by {
        if q < n {
            assert(shows_cell_at(a, r, j, x) && shows_cell_at(a, q, k, y));
        } else if r >= n {
            assert(shows_cell_at(b, r - n, j, x) && shows_cell_at(b, q - n, k, y));
        } else {
            assert(shows_cell_at(a, r, j, x) && shows_cell_at(b, q - n, k, y));
            lemma_ids_differ(lines, from, mid, to, x.row, y.row);
        }
    }
    assert forall|r: int, j: int, x: SourceCell| #[trigger] shows_cell_at(
        all,
        r,
        j,
        x,
    ) implies is_id_of(lines, from, to, x.row) by {
        if r < n {
            assert(shows_cell_at(a, r, j, x));
            let i = choose|i: int| from <= i < mid && (#[trigger] lines[i]).id == x.row;
            assert(lines[i].id == x.row);
        } else {
            assert(shows_cell_at(b, r - n, j, x));
            let i = choose|i: int| mid <= i < to && (#[trigger] lines[i]).id == x.row;
            assert(lines[i].id == x.row);
        }
    }
}

/// How many cells a character has.
spec fn width_of(glyph: Glyph) -> int {
    if glyph.wide {
        2
    } else {
        1
    }
}

/// Whether a character ends before another of the same row begins.
spec fn glyph_leads(a: Glyph, b: Glyph) -> bool {
    a.row.raw == 0 || a.row != b.row || a.column + width_of(a) <= b.column
}

/// Characters of the lines `from..to`, those of each line in its order.
spec fn glyphs_spread(glyphs: Seq<Glyph>, lines: Seq<Line>, from: int, to: int) -> bool {
    &&& forall|i: int|
        0 <= i < glyphs.len() ==> is_id_of(lines, from, to, (#[trigger] glyphs[i]).row)
            && glyphs[i].column + width_of(glyphs[i]) <= usize::MAX
    &&& forall|i: int, j: int|
        0 <= i < j < glyphs.len() ==> glyph_leads(#[trigger] glyphs[i], #[trigger] glyphs[j])
}

/// The characters of a row come in its order.
proof fn lemma_row_glyphs(lines: Seq<Line>, r: int, number: u64, c: int, len: int)
    requires
        0 <= r < lines.len(),
        0 <= c,
        len <= usize::MAX,
    ensures
        glyphs_spread(glyphs_from(lines[r], number, c, len), lines, r, r + 1),
        forall|i: int|
            0 <= i < glyphs_from(lines[r], number, c, len).len() ==> c <= (#[trigger] glyphs_from(
                lines[r],
                number,
                c,
                len,
            )[i]).column,
    decreases len - c,
{
    let line = lines[r];
    if c < len {
        let wide = c + 1 < len && line.cells[c + 1].flags.spec_continuation();
        let next = if wide {
            c + 2
        } else {
            c + 1
        };
        lemma_row_glyphs(lines, r, number, next, len);
        let head = Glyph { line: number, row: line.id, column: c as usize, wide };
        let rest = glyphs_from(line, number, next, len);
        let all = glyphs_from(line, number, c, len);
        assert(all == seq![head] + rest);
        assert forall|i: int| 0 <= i < all.len() implies is_id_of(
            lines,
            r,
            r + 1,
            (#[trigger] all[i]).row,
        ) && all[i].column + width_of(all[i]) <= usize::MAX && c <= all[i].column by {
            if i > 0 {
                assert(all[i] == rest[i - 1]);
            } else {
                assert(lines[r].id == all[i].row);
            }
        }
        assert forall|i: int, j: int| 0 <= i < j < all.len() implies glyph_leads(
            #[trigger] all[i],
            #[trigger] all[j],
        ) by {
            assert(all[j] == rest[j - 1]);
            if i > 0 {
                assert(all[i] == rest[i - 1]);
            }
        }
    }
}

/// The characters of lines come line by line.
proof fn lemma_line_glyphs(lines: Seq<Line>, first: u64, from: int, to: int)
    requires
        once(lines),
        0 <= from <= to <= lines.len(),
        cells_are_countable(lines),
    ensures
        glyphs_spread(glyphs_of(lines, first, from, to), lines, from, to),
    decreases to - from,
{
    if from < to {
        let number = saturating_sum(first, from);
        let len = content_len(lines[from].cells);
        lemma_content_len_bounds(lines[from].cells);
        assert(lines[from].cells.len() <= usize::MAX);
        lemma_row_glyphs(lines, from, number, 0, len);
        lemma_line_glyphs(lines, first, from + 1, to);
        let a = glyphs_from(lines[from], number, 0, len);
        let b = glyphs_of(lines, first, from + 1, to);
        let all = glyphs_of(lines, first, from, to);
        let n = a.len() as int;
        assert(all == a + b);
        assert forall|i: int| 0 <= i < all.len() implies is_id_of(
            lines,
            from,
            to,
            (#[trigger] all[i]).row,
        ) && all[i].column + width_of(all[i]) <= usize::MAX by {
            if i < n {
                assert(all[i] == a[i]);
                let k = choose|k: int|
                    from <= k < from + 1 && (#[trigger] lines[k]).id == all[i].row;
                assert(lines[k].id == all[i].row);
            } else {
                assert(all[i] == b[i - n]);
                let k = choose|k: int| from + 1 <= k < to && (#[trigger] lines[k]).id == all[i].row;
                assert(lines[k].id == all[i].row);
            }
        }
        assert forall|i: int, j: int| 0 <= i < j < all.len() implies glyph_leads(
            #[trigger] all[i],
            #[trigger] all[j],
        ) by {
            if j < n {
                assert(all[i] == a[i] && all[j] == a[j]);
            } else if i >= n {
                assert(all[i] == b[i - n] && all[j] == b[j - n]);
            } else {
                assert(all[i] == a[i] && all[j] == b[j - n]);
                lemma_ids_differ(lines, from, from + 1, to, all[i].row, all[j].row);
            }
        }
    }
}

/// Whether a cell belongs to a character.
spec fn is_cell_of(glyph: Glyph, cell: SourceCell) -> bool {
    cell.row == glyph.row && glyph.column <= cell.column < glyph.column + width_of(glyph)
}

/// Whether a cell belongs to one of the characters.
spec fn is_cell_among(glyphs: Seq<Glyph>, cell: SourceCell) -> bool {
    exists|i: int| 0 <= i < glyphs.len() && is_cell_of(#[trigger] glyphs[i], cell)
}

/// The cells of characters come in the order of the characters.
proof fn lemma_cells_spread(
    glyphs: Seq<Glyph>,
    cols: int,
    lines: Seq<Line>,
    from: int,
    to: int,
)
    requires
        glyphs_spread(glyphs, lines, from, to),
    ensures
        forall|k: int|
            0 <= k < glyphs_cells(glyphs, cols).len() ==> is_cell_among(
                glyphs,
                #[trigger] glyphs_cells(glyphs, cols)[k],
            ),
        forall|a: int, b: int|
            0 <= a < b < glyphs_cells(glyphs, cols).len() ==> cell_leads(
                #[trigger] glyphs_cells(glyphs, cols)[a],
                #[trigger] glyphs_cells(glyphs, cols)[b],
            ),
    decreases glyphs.len(),
{
    if glyphs.len() > 0 {
        let head = glyphs.drop_last();
        let last = glyphs.last();
        lemma_spread_part(glyphs, 0, glyphs.len() - 1, lines, from, to);
        assert(glyphs.subrange(0, glyphs.len() - 1) =~= head);
        lemma_cells_spread(head, cols, lines, from, to);
        let before = glyphs_cells(head, cols);
        let own = glyph_cells(last, cols);
        let all = glyphs_cells(glyphs, cols);
        let n = before.len() as int;
        assert(all == before + own);
        assert(glyphs[glyphs.len() - 1] == last);
        assert forall|k: int| 0 <= k < own.len() implies is_cell_of(last, #[trigger] own[k]) by {}
        assert forall|k: int| 0 <= k < all.len() implies is_cell_among(
            glyphs,
            #[trigger] all[k],
        ) by {
            if k < n {
                assert(is_cell_among(head, before[k]));
                let i = choose|i: int|
                    0 <= i < head.len() && is_cell_of(#[trigger] head[i], before[k]);
                assert(is_cell_of(glyphs[i], all[k]));
            } else {
                assert(is_cell_of(last, own[k - n]));
                assert(is_cell_of(glyphs[glyphs.len() - 1], all[k]));
            }
        }
        assert forall|a: int, b: int| 0 <= a < b < all.len() implies cell_leads(
            #[trigger] all[a],
            #[trigger] all[b],
        ) by {
            if b < n {
                assert(all[a] == before[a] && all[b] == before[b]);
            } else if a >= n {
                assert(all[a] == own[a - n] && all[b] == own[b - n]);
            } else {
                assert(all[a] == before[a] && all[b] == own[b - n]);
                assert(is_cell_among(head, before[a]));
                let i = choose|i: int|
                    0 <= i < head.len() && is_cell_of(#[trigger] head[i], before[a]);
                assert(glyph_leads(glyphs[i], glyphs[glyphs.len() - 1]));
                assert(is_cell_of(last, own[b - n]));
            }
        }
    }
}

/// A part of characters in order is in order.
proof fn lemma_spread_part(
    glyphs: Seq<Glyph>,
    a: int,
    b: int,
    lines: Seq<Line>,
    from: int,
    to: int,
)
    requires
        glyphs_spread(glyphs, lines, from, to),
        0 <= a <= b <= glyphs.len(),
    ensures
        glyphs_spread(glyphs.subrange(a, b), lines, from, to),
{
    let sub = glyphs.subrange(a, b);
    assert forall|i: int| 0 <= i < sub.len() implies is_id_of(
        lines,
        from,
        to,
        (#[trigger] sub[i]).row,
    ) && sub[i].column + width_of(sub[i]) <= usize::MAX by {
        assert(sub[i] == glyphs[a + i]);
    }
    assert forall|i: int, j: int| 0 <= i < j < sub.len() implies glyph_leads(
        #[trigger] sub[i],
        #[trigger] sub[j],
    ) by {
        assert(sub[i] == glyphs[a + i] && sub[j] == glyphs[a + j]);
    }
}

/// Characters broken into rows keep their order.
proof fn lemma_broken_spread(
    glyphs: Seq<Glyph>,
    cols: int,
    lines: Seq<Line>,
    from: int,
    to: int,
)
    requires
        glyphs_spread(glyphs, lines, from, to),
    ensures
        forall|k: int|
            0 <= k < broken(glyphs, cols).len() ==> glyphs_spread(
                #[trigger] broken(glyphs, cols)[k],
                lines,
                from,
                to,
            ),
        forall|k: int, x: int|
            0 <= k < broken(glyphs, cols).len() && 0 <= x < broken(glyphs, cols)[k].len()
                ==> glyphs.contains(#[trigger] broken(glyphs, cols)[k][x]),
        forall|a: int, b: int, x: int, y: int|
            0 <= a < b < broken(glyphs, cols).len() && 0 <= x < broken(glyphs, cols)[a].len()
                && 0 <= y < broken(glyphs, cols)[b].len() ==> glyph_leads(
                #[trigger] broken(glyphs, cols)[a][x],
                #[trigger] broken(glyphs, cols)[b][y],
            ),
    decreases glyphs.len(),
{
    let n = fitting(glyphs, cols, cols);
    if glyphs.len() > 0 {
        if n < 1 || n > glyphs.len() {
            assert(broken(glyphs, cols) == seq![glyphs]);
        } else {
            let head = glyphs.take(n);
            let tail = glyphs.skip(n);
            lemma_spread_part(glyphs, 0, n, lines, from, to);
            lemma_spread_part(glyphs, n, glyphs.len() as int, lines, from, to);
            assert(glyphs.subrange(0, n) =~= head);
            assert(glyphs.subrange(n, glyphs.len() as int) =~= tail);
            lemma_broken_spread(tail, cols, lines, from, to);
            let rest = broken(tail, cols);
            let all = broken(glyphs, cols);
            assert(all == seq![head] + rest);
            assert forall|k: int| 0 <= k < all.len() implies glyphs_spread(
                #[trigger] all[k],
                lines,
                from,
                to,
            ) by {
                if k > 0 {
                    assert(all[k] == rest[k - 1]);
                }
            }
            assert forall|k: int, x: int|
                0 <= k < all.len() && 0 <= x < all[k].len() implies glyphs.contains(
                #[trigger] all[k][x],
            ) by {
                if k > 0 {
                    assert(all[k] == rest[k - 1]);
                    assert(tail.contains(rest[k - 1][x]));
                    let i = choose|i: int| 0 <= i < tail.len() && tail[i] == rest[k - 1][x];
                    assert(glyphs[n + i] == all[k][x]);
                } else {
                    assert(glyphs[x] == all[k][x]);
                }
            }
            assert forall|a: int, b: int, x: int, y: int|
                0 <= a < b < all.len() && 0 <= x < all[a].len() && 0 <= y
                    < all[b].len() implies glyph_leads(
                #[trigger] all[a][x],
                #[trigger] all[b][y],
            ) by {
                assert(all[b] == rest[b - 1]);
                if a > 0 {
                    assert(all[a] == rest[a - 1]);
                    assert(glyph_leads(rest[a - 1][x], rest[b - 1][y]));
                } else {
                    assert(tail.contains(rest[b - 1][y]));
                    let i = choose|i: int| 0 <= i < tail.len() && tail[i] == rest[b - 1][y];
                    assert(glyph_leads(glyphs[x], glyphs[n + i]));
                }
            }
        }
    }
}

/// What a row of characters shows belongs to one of them.
proof fn lemma_shown_glyph(
    groups: Seq<Seq<Glyph>>,
    cols: int,
    lines: Seq<Line>,
    from: int,
    to: int,
    r: int,
    j: int,
    cell: SourceCell,
) -> (x: int)
    requires
        0 <= r < groups.len(),
        glyphs_spread(groups[r], lines, from, to),
        shows_cell_at(glyph_rows(groups, cols), r, j, cell),
    ensures
        0 <= x < groups[r].len(),
        is_cell_of(groups[r][x], cell),
        0 <= j < glyphs_cells(groups[r], cols).len(),
        glyphs_cells(groups[r], cols)[j] == cell,
{
    lemma_cells_spread(groups[r], cols, lines, from, to);
    assert(glyph_rows(groups, cols)[r] == glyph_row(groups[r], cols, r + 1 < groups.len()));
    assert(is_cell_among(groups[r], cell));
    choose|x: int| 0 <= x < groups[r].len() && is_cell_of(#[trigger] groups[r][x], cell)
}

/// The rows of a logical line show its cells in their order.
proof fn lemma_logical_spread(lines: Seq<Line>, first: u64, from: int, to: int, cols: int)
    requires
        once(lines),
        0 <= from < to <= lines.len(),
        cells_are_countable(lines),
        cols >= 0,
    ensures
        rows_spread(logical_rows(lines, first, from, to, cols)),
        have_width(logical_rows(lines, first, from, to, cols), cols),
        show_lines(logical_rows(lines, first, from, to, cols), lines, from, to),
{
    let glyphs = glyphs_of(lines, first, from, to);
    lemma_line_glyphs(lines, first, from, to);
    if glyphs.len() > 0 {
        let groups = broken(glyphs, cols);
        let rows = glyph_rows(groups, cols);
        lemma_broken_spread(glyphs, cols, lines, from, to);
        assert forall|r: int, j: int, q: int, k: int, a: SourceCell, b: SourceCell|
            #[trigger] shows_cell_at(rows, r, j, a) && #[trigger] shows_cell_at(rows, q, k, b) && (r < q || (r
                == q && j < k)) implies cell_leads(a, b) by {
            assert(glyphs_spread(groups[r], lines, from, to));
            assert(glyphs_spread(groups[q], lines, from, to));
            let x = lemma_shown_glyph(groups, cols, lines, from, to, r, j, a);
            let y = lemma_shown_glyph(groups, cols, lines, from, to, q, k, b);
            if r < q {
                assert(glyph_leads(groups[r][x], groups[q][y]));
            } else {
                lemma_cells_spread(groups[r], cols, lines, from, to);
            }
        }
        assert forall|r: int, j: int, a: SourceCell| #[trigger] shows_cell_at(
            rows,
            r,
            j,
            a,
        ) implies is_id_of(lines, from, to, a.row) by {
            assert(glyphs_spread(groups[r], lines, from, to));
            let x = lemma_shown_glyph(groups, cols, lines, from, to, r, j, a);
            assert(is_id_of(lines, from, to, groups[r][x].row));
        }
    }
}

/// The rows of the history show its cells in their order.
proof fn lemma_history_spread(lines: Seq<Line>, first: u64, from: int, end: int, cols: int)
    requires
        once(lines),
        0 <= from <= end <= lines.len(),
        cells_are_countable(lines),
        cols >= 0,
    ensures
        rows_spread(history_rows(lines, first, from, end, cols)),
        have_width(history_rows(lines, first, from, end, cols), cols),
        show_lines(history_rows(lines, first, from, end, cols), lines, from, end),
    decreases end - from,
{
    if from < end {
        let next = logical_end(lines, from, end);
        lemma_logical_end(lines, from, end);
        lemma_logical_spread(lines, first, from, next, cols);
        lemma_history_spread(lines, first, next, end, cols);
        lemma_spread_join(
            logical_rows(lines, first, from, next, cols),
            history_rows(lines, first, next, end, cols),
            lines,
            from,
            next,
            end,
        );
    }
}

/// A document that folds nothing shows no cell twice, as long as no two rows
/// share an identity.
pub proof fn plain_documents_show_cells_once(
    history: Seq<Line>,
    screen: Seq<Line>,
    first: u64,
    cols: int,
)
    requires
        once(history + screen),
        cells_are_countable(history),
        0 <= cols <= usize::MAX,
    ensures
        cells_once(identity_rows(history, screen, first, cols)),
        have_width(identity_rows(history, screen, first, cols), cols),
{
    let lines = history + screen;
    let n = history.len() as int;
    let edge = saturating_sum(first, n);
    let upper = history_rows(history, first, 0, n, cols);
    let lower = screen_rows(screen, edge, cols);
    let all = identity_rows(history, screen, first, cols);
    assert forall|i: int, j: int| 0 <= i < j < history.len() implies (
    #[trigger] history[i]).id.raw == 0 || history[i].id != (#[trigger] history[j]).id by {
        assert(lines[i] == history[i] && lines[j] == history[j]);
    }
    lemma_history_spread(history, first, 0, n, cols);
    assert forall|r: int, j: int, q: int, k: int, a: SourceCell, b: SourceCell|
        #[trigger] shows_cell_at(all, r, j, a) && #[trigger] shows_cell_at(all, q, k, b) && (r < q || (r == q
            && j < k)) implies cell_leads(a, b) by {
        let u = upper.len() as int;
        if q < u {
            assert(shows_cell_at(upper, r, j, a) && shows_cell_at(upper, q, k, b));
        } else if r >= u {
            assert(lines[n + (r - u)] == screen[r - u] && lines[n + (q - u)] == screen[q - u]);
            assert(all[r] == screen_row(screen[r - u], saturating_sum(edge, r - u), cols));
            assert(all[q] == screen_row(screen[q - u], saturating_sum(edge, q - u), cols));
        } else {
            assert(shows_cell_at(upper, r, j, a));
            let i = choose|i: int| 0 <= i < n && (#[trigger] history[i]).id == a.row;
            assert(lines[i] == history[i] && lines[n + (q - u)] == screen[q - u]);
            assert(all[q] == screen_row(screen[q - u], saturating_sum(edge, q - u), cols));
        }
    }
    assert forall|r: int, j: int, q: int, k: int, a: SourceCell, b: SourceCell|
        #[trigger] shows_cell_at(all, r, j, a) && #[trigger] shows_cell_at(all, q, k, b) && a.row.raw != 0
            && a.row == b.row && a.column == b.column implies r == q && j == k by {
        if r < q || (r == q && j < k) {
            assert(cell_leads(a, b));
        } else if q < r || (r == q && k < j) {
            assert(cell_leads(b, a));
        }
    }
}

/// `plan` is the document of the rows `history` and `screen`, no two of which
/// share an identity, with outputs folded.
pub open spec fn made_of(
    key: PlanKeyModel,
    plan: PlanModel,
    history: Seq<Line>,
    screen: Seq<Line>,
    policy_revision: u64,
) -> bool {
    &&& once(history + screen)
    &&& cells_are_countable(history)
    &&& screen.len() == key.rows
    &&& plan.cols >= 1
    &&& plan.rows == all_folded(
        identity_rows(history, screen, plan.first_line, plan.cols as int),
        plan.collapses,
        plan.collapses.len() as int,
        policy_revision,
        plan.cols as int,
    )
    &&& plan.history_ids == ids_of(history)
    &&& plan.history_wraps == wraps_of(history)
}

/// `plan` is the document of rows that do not share identities.
pub open spec fn is_sound(key: PlanKeyModel, plan: PlanModel) -> bool {
    exists|history: Seq<Line>, screen: Seq<Line>, policy_revision: u64| #[trigger]
        made_of(key, plan, history, screen, policy_revision)
}

/// A document of rows that do not share identities shows no cell twice.
pub proof fn sound_documents_show_cells_once(key: PlanKeyModel, plan: PlanModel)
    requires
        is_sound(key, plan),
    ensures
        cells_once(plan.rows),
        have_width(plan.rows, plan.cols as int),
{
    let (history, screen, policy_revision) = choose|
        history: Seq<Line>,
        screen: Seq<Line>,
        policy_revision: u64,
    | #[trigger] made_of(key, plan, history, screen, policy_revision);
    let cols = plan.cols as int;
    plain_documents_show_cells_once(history, screen, plan.first_line, cols);
    folding_shows_cells_once(
        identity_rows(history, screen, plan.first_line, cols),
        plan.collapses,
        plan.collapses.len() as int,
        policy_revision,
        cols,
    );
}

/// The rows of a terminal do not share identities.
pub proof fn lemma_document_once(state: TerminalState)
    requires
        state.core_wf(),
    ensures
        once(state.history() + state.grid@),
{
    reveal(rows_named_once);
    let all = state.history() + state.grid@;
    let n = state.history().len() as int;
    assert forall|i: int, j: int| 0 <= i < j < all.len() implies (#[trigger] all[i]).id.raw == 0
        || all[i].id != (#[trigger] all[j]).id by {
        if j < n {
            assert(state.history()[i].id.raw == 0 || state.history()[i].id
                != state.history()[j].id);
        } else if i >= n {
            assert(state.grid@[i - n].id.raw == 0 || state.grid@[i - n].id
                != state.grid@[j - n].id);
        } else {
            assert(state.history()[i].id.raw == 0 || state.history()[i].id
                != state.grid@[j - n].id);
        }
    }
}

/// A document made of the rows of a terminal is one of rows that do not share
/// identities.
pub proof fn lemma_fresh_is_sound(
    state: TerminalState,
    cols: usize,
    collapses: Seq<ResolvedCollapse>,
    policy_revision: u64,
    plan: PlanModel,
    key: PlanKeyModel,
)
    requires
        state.core_wf(),
        cols >= 1,
        is_plan_of(state, cols, collapses, policy_revision, plan),
        key.rows == state.grid@.len(),
    ensures
        is_sound(key, plan),
{
    lemma_document_once(state);
    lemma_countable(state);
    assert(made_of(key, plan, state.history(), state.grid@, policy_revision));
}

/// The number of a document does not matter.
pub proof fn lemma_sound_renumbered(key: PlanKeyModel, a: PlanModel, b: PlanModel)
    requires
        is_sound(key, a),
        b == (PlanModel {
            plan_revision: b.plan_revision,
            incremental_from: b.incremental_from,
            incremental_appended_rows: b.incremental_appended_rows,
            ..a
        }),
    ensures
        is_sound(key, b),
{
    let (history, screen, policy_revision) = choose|
        history: Seq<Line>,
        screen: Seq<Line>,
        policy_revision: u64,
    | #[trigger] made_of(key, a, history, screen, policy_revision);
    assert(made_of(key, b, history, screen, policy_revision));
}

} // verus!
