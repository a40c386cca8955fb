//! A document shows the lines of the terminal in their order.

use vstd::prelude::*;

use crate::folding::first_cell;
use crate::grid::Line;
use crate::history::content_len;
use crate::history::lemma_content_len_bounds;
use crate::layout::lemma_logical_end;
use crate::plan::broken;
use crate::plan::empty_row;
use crate::plan::fitting;
use crate::plan::glyph_cells;
use crate::plan::glyph_row;
use crate::plan::glyph_rows;
use crate::plan::glyphs_cells;
use crate::plan::glyphs_from;
use crate::plan::glyphs_of;
use crate::plan::history_rows;
use crate::plan::identity_rows;
use crate::plan::logical_rows;
use crate::plan::screen_row;
use crate::plan::screen_rows;
use crate::plan::Glyph;
use crate::plan::PlanRowModel;
use crate::plan::SourceCell;
use crate::state::saturating_sum;
use crate::view::logical_end;

verus! {

/// Rows of one width.
pub open spec fn have_width(rows: Seq<PlanRowModel>, cols: int) -> bool {
    forall|r: int| 0 <= r < rows.len() ==> (#[trigger] rows[r]).cells.len() == cols
}

/// Only rows of the terminal show cells.
pub open spec fn cells_are_raw(rows: Seq<PlanRowModel>) -> bool {
    forall|r: int|
        0 <= r < rows.len() && first_cell((#[trigger] rows[r]).cells, 0) is Some
            ==> rows[r].kind is Raw
}

/// Whether a position comes before another in the lines of the terminal.
pub open spec fn place_before(a: (u64, usize), b: (u64, usize)) -> bool {
    a.0 < b.0 || (a.0 == b.0 && a.1 < b.1)
}

/// Whether column `j` of a row shows the cell at a position.
pub open spec fn marks_at(cells: Seq<Option<SourceCell>>, j: int, place: (u64, usize)) -> bool {
    &&& 0 <= j < cells.len()
    &&& cells[j] matches Some(cell) && (cell.line, cell.column) == place
}

/// Whether a row stands for a position: one of its cells, or the start of its
/// line where it has none.
pub open spec fn marks(row: PlanRowModel, place: (u64, usize)) -> bool {
    &&& row.kind is Raw
    &&& match first_cell(row.cells, 0) {
        Some(_) => exists|j: int| #[trigger] marks_at(row.cells, j, place),
        None => row.source is Some && place == (row.source->0.line, 0usize),
    }
}

/// Rows in the order of the lines of the terminal.
pub open spec fn in_line_order(rows: Seq<PlanRowModel>) -> bool {
    &&& forall|a: int, b: int, p: (u64, usize), q: (u64, usize)|
        0 <= a < b < rows.len() && #[trigger] marks(rows[a], p) && #[trigger] marks(rows[b], q)
            ==> place_before(p, q)
    &&& forall|r: int, i: int, j: int, p: (u64, usize), q: (u64, usize)|
        0 <= r < rows.len() && i < j && #[trigger] marks_at(rows[r].cells, i, p)
            && #[trigger] marks_at(rows[r].cells, j, q) ==> place_before(p, q)
}

/// Whether a row stands for one of the lines `lo..hi` and shows nothing else.
pub open spec fn lies_within(row: PlanRowModel, lo: int, hi: int) -> bool {
    &&& row.kind is Raw
    &&& row.source matches Some(source) && lo <= source.line < hi
    &&& forall|j: int|
        0 <= j < row.cells.len() && (#[trigger] row.cells[j]) is Some ==> lo
            <= row.cells[j]->0.line < hi
}

/// Whether rows show nothing but the lines `lo..hi`.
pub open spec fn lie_within(rows: Seq<PlanRowModel>, lo: int, hi: int) -> bool {
    forall|r: int| 0 <= r < rows.len() ==> lies_within(#[trigger] rows[r], lo, hi)
}

/// Physical rows whose cells can be numbered.
pub open spec fn cells_are_countable(lines: Seq<Line>) -> bool {
    forall|r: int| 0 <= r < lines.len() ==> (#[trigger] lines[r]).cells.len() <= usize::MAX
}

/// The first cell of a row is one of its cells.
pub proof fn lemma_first_cell(cells: Seq<Option<SourceCell>>, from: int)
    requires
        0 <= from,
    ensures
        match first_cell(cells, from) {
            Some(cell) => exists|j: int| from <= j < cells.len() && #[trigger] cells[j] == Some(cell),
            None => forall|j: int| from <= j < cells.len() ==> (#[trigger] cells[j]) is None,
        },
    decreases cells.len() - from,
{
    if from < cells.len() && cells[from] is None {
        lemma_first_cell(cells, from + 1);
    }
}

/// What a row stands for lies in the lines that it shows.
proof fn lemma_mark_within(row: PlanRowModel, place: (u64, usize), lo: int, hi: int)
    requires
        lies_within(row, lo, hi),
        marks(row, place),
    ensures
        lo <= place.0 < hi,
{
    if first_cell(row.cells, 0) is Some {
        let j = choose|j: int| #[trigger] marks_at(row.cells, j, place);
        assert(row.cells[j] is Some);
    }
}

/// Rows of later lines stand behind rows of earlier ones.
proof fn lemma_join(a: Seq<PlanRowModel>, b: Seq<PlanRowModel>, lo: int, mid: int, hi: int)
    requires
        in_line_order(a),
        in_line_order(b),
        lie_within(a, lo, mid),
        lie_within(b, mid, hi),
        lo <= mid <= hi,
    ensures
        in_line_order(a + b),
        lie_within(a + b, lo, hi),
{
    let all = a + b;
    let n = a.len() as int;
    assert forall|x: int, y: int, p: (u64, usize), q: (u64, usize)|
        0 <= x < y < all.len() && #[trigger] marks(all[x], p) && #[trigger] marks(
            all[y],
            q,
        ) implies place_before(p, q) by {
        if y < n {
            assert(marks(a[x], p) && marks(a[y], q));
        } else if x >= n {
            assert(marks(b[x - n], p) && marks(b[y - n], q));
        } else {
            assert(lies_within(a[x], lo, mid));
            assert(lies_within(b[y - n], mid, hi));
            lemma_mark_within(a[x], p, lo, mid);
            lemma_mark_within(b[y - n], q, mid, hi);
        }
    }
    assert forall|r: int, i: int, j: int, p: (u64, usize), q: (u64, usize)|
        0 <= r < all.len() && i < j && #[trigger] marks_at(all[r].cells, i, p)
            && #[trigger] marks_at(all[r].cells, j, q) implies place_before(p, q) by {
        if r < n {
            assert(marks_at(a[r].cells, i, p) && marks_at(a[r].cells, j, q));
        } else {
            assert(marks_at(b[r - n].cells, i, p) && marks_at(b[r - n].cells, j, q));
        }
    }
    assert forall|r: int| 0 <= r < all.len() implies lies_within(#[trigger] all[r], lo, hi) by {
        if r < n {
            assert(lies_within(a[r], lo, mid));
        } else {
            assert(lies_within(b[r - n], mid, hi));
        }
    }
}

/// How many cells a character has.
spec fn glyph_width(glyph: Glyph) -> int {
    if glyph.wide {
        2
    } else {
        1
    }
}

/// Whether a character ends before another begins.
spec fn glyph_before(a: Glyph, b: Glyph) -> bool {
    a.line < b.line || (a.line == b.line && a.column + glyph_width(a) <= b.column)
}

/// Characters of the lines `lo..hi` in their order.
spec fn glyphs_in_order(glyphs: Seq<Glyph>, lo: int, hi: int) -> bool {
    &&& forall|i: int|
        0 <= i < glyphs.len() ==> lo <= (#[trigger] glyphs[i]).line < hi && glyphs[i].column
            + glyph_width(glyphs[i]) <= usize::MAX
    &&& forall|i: int, j: int|
        0 <= i < j < glyphs.len() ==> glyph_before(#[trigger] glyphs[i], #[trigger] glyphs[j])
}

/// The characters of a row come in its order.
proof fn lemma_glyphs_from(line: Line, number: u64, c: int, len: int)
    requires
        0 <= c,
        len <= usize::MAX,
    ensures
        glyphs_in_order(glyphs_from(line, number, c, len), number as int, number + 1),
        forall|i: int|
            0 <= i < glyphs_from(line, number, c, len).len() ==> c <= (#[trigger] glyphs_from(
                line,
                number,
                c,
                len,
            )[i]).column,
    decreases len - c,
{
    if c < len {
        let wide = c + 1 < len && line.cells[c + 1].flags.spec_continuation();
        let next = if wide {
            c + 2
        } else {
            c + 1
        };
        lemma_glyphs_from(line, number, next, len);
        let head = Glyph { line: number, row: line.id, column: c as usize, wide };
        let rest = glyphs_from(line, number, next, len);
        let all = glyphs_from(line, number, c, len);
        assert(all == seq![head] + rest);
        assert forall|i: int| 0 <= i < all.len() implies number <= (#[trigger] all[i]).line < number
            + 1 && all[i].column + glyph_width(all[i]) <= usize::MAX && c <= all[i].column by {
            if i > 0 {
                assert(all[i] == rest[i - 1]);
            }
        }
        assert forall|i: int, j: int| 0 <= i < j < all.len() implies glyph_before(
            #[trigger] all[i],
            #[trigger] all[j],
        ) by {
            assert(all[j] == rest[j - 1]);
            if i > 0 {
                assert(all[i] == rest[i - 1]);
            }
        }
    }
}

/// Characters of later lines stand behind those of earlier ones.
proof fn lemma_glyphs_join(a: Seq<Glyph>, b: Seq<Glyph>, lo: int, mid: int, hi: int)
    requires
        glyphs_in_order(a, lo, mid),
        glyphs_in_order(b, mid, hi),
        lo <= mid <= hi,
    ensures
        glyphs_in_order(a + b, lo, hi),
{
    let all = a + b;
    let n = a.len() as int;
    assert forall|i: int| 0 <= i < all.len() implies lo <= (#[trigger] all[i]).line < hi
        && all[i].column + glyph_width(all[i]) <= usize::MAX by {
        if i < n {
            assert(all[i] == a[i]);
        } else {
            assert(all[i] == b[i - n]);
        }
    }
    assert forall|i: int, j: int| 0 <= i < j < all.len() implies glyph_before(
        #[trigger] all[i],
        #[trigger] all[j],
    ) by {
        if j < n {
            assert(all[i] == a[i] && all[j] == a[j]);
        } else if i >= n {
            assert(all[i] == b[i - n] && all[j] == b[j - n]);
        } else {
            assert(all[i] == a[i] && all[j] == b[j - n]);
        }
    }
}

/// The characters of rows come in the order of the rows.
proof fn lemma_glyphs_of(lines: Seq<Line>, first: u64, from: int, to: int)
    requires
        0 <= from <= to <= lines.len(),
        first + to <= u64::MAX,
        cells_are_countable(lines),
    ensures
        glyphs_in_order(glyphs_of(lines, first, from, to), first + from, first + to),
    decreases to - from,
{
    if from < to {
        let number = saturating_sum(first, from);
        lemma_content_len_bounds(lines[from].cells);
        assert(lines[from].cells.len() <= usize::MAX);
        lemma_glyphs_from(lines[from], number, 0, content_len(lines[from].cells));
        lemma_glyphs_of(lines, first, from + 1, to);
        lemma_glyphs_join(
            glyphs_from(lines[from], number, 0, content_len(lines[from].cells)),
            glyphs_of(lines, first, from + 1, to),
            first + from,
            first + from + 1,
            first + to,
        );
    }
}

/// Whether a cell belongs to a character.
spec fn in_glyph(glyph: Glyph, cell: SourceCell) -> bool {
    cell.line == glyph.line && glyph.column <= cell.column < glyph.column + glyph_width(glyph)
}

/// Whether a cell belongs to one of the characters.
spec fn in_glyphs(glyphs: Seq<Glyph>, cell: SourceCell) -> bool {
    exists|i: int| 0 <= i < glyphs.len() && in_glyph(#[trigger] glyphs[i], cell)
}

/// The cells of characters come in the order of the characters.
proof fn lemma_glyphs_cells(glyphs: Seq<Glyph>, cols: int, lo: int, hi: int)
    requires
        glyphs_in_order(glyphs, lo, hi),
    ensures
        glyphs.len() <= glyphs_cells(glyphs, cols).len(),
        forall|k: int|
            0 <= k < glyphs_cells(glyphs, cols).len() ==> in_glyphs(
                glyphs,
                #[trigger] glyphs_cells(glyphs, cols)[k],
            ),
        forall|a: int, b: int|
            0 <= a < b < glyphs_cells(glyphs, cols).len() ==> place_before(
                (
                    (#[trigger] glyphs_cells(glyphs, cols)[a]).line,
                    glyphs_cells(glyphs, cols)[a].column,
                ),
                (
                    (#[trigger] glyphs_cells(glyphs, cols)[b]).line,
                    glyphs_cells(glyphs, cols)[b].column,
                ),
            ),
    decreases glyphs.len(),
{
    if glyphs.len() > 0 {
        let head = glyphs.drop_last();
        let last = glyphs.last();
        assert forall|i: int| 0 <= i < head.len() implies lo <= (#[trigger] head[i]).line < hi
            && head[i].column + glyph_width(head[i]) <= usize::MAX by {
            assert(head[i] == glyphs[i]);
        }
        assert forall|i: int, j: int| 0 <= i < j < head.len() implies glyph_before(
            #[trigger] head[i],
            #[trigger] head[j],
        ) by {
            assert(head[i] == glyphs[i] && head[j] == glyphs[j]);
        }
        lemma_glyphs_cells(head, cols, lo, hi);
        let before = glyphs_cells(head, cols);
        let own = glyph_cells(last, cols);
        let all = glyphs_cells(glyphs, cols);
        let n = before.len() as int;
        assert(all == before + own);
        assert(glyphs[glyphs.len() - 1] == last);
        assert forall|k: int| 0 <= k < own.len() implies in_glyph(last, #[trigger] own[k]) by {
        }
        assert forall|k: int| 0 <= k < all.len() implies in_glyphs(glyphs, #[trigger] all[k]) by {
            if k < n {
                assert(in_glyphs(head, before[k]));
                let i = choose|i: int|
                    0 <= i < head.len() && in_glyph(#[trigger] head[i], before[k]);
                assert(in_glyph(glyphs[i], all[k]));
            } else {
                assert(in_glyph(last, own[k - n]));
                assert(in_glyph(glyphs[glyphs.len() - 1], all[k]));
            }
        }
        assert forall|a: int, b: int| 0 <= a < b < all.len() implies place_before(
            ((#[trigger] all[a]).line, all[a].column),
            ((#[trigger] all[b]).line, all[b].column),
        ) by {
            if b < n {
                assert(all[a] == before[a] && all[b] == before[b]);
            } else if a >= n {
                assert(all[a] == own[a - n] && all[b] == own[b - n]);
            } else {
                assert(all[a] == before[a] && all[b] == own[b - n]);
                assert(in_glyphs(head, before[a]));
                let i = choose|i: int|
                    0 <= i < head.len() && in_glyph(#[trigger] head[i], before[a]);
                assert(glyph_before(glyphs[i], glyphs[glyphs.len() - 1]));
                assert(in_glyph(last, own[b - n]));
            }
        }
    }
}

/// Characters broken into rows keep their order.
proof fn lemma_broken(glyphs: Seq<Glyph>, cols: int, lo: int, hi: int)
    requires
        glyphs_in_order(glyphs, lo, hi),
    ensures
        forall|k: int|
            0 <= k < broken(glyphs, cols).len() ==> (#[trigger] broken(glyphs, cols)[k]).len() > 0
                && glyphs_in_order(broken(glyphs, cols)[k], lo, hi),
        forall|k: int, x: int|
            0 <= k < broken(glyphs, cols).len() && 0 <= x < broken(glyphs, cols)[k].len()
                ==> glyphs.contains(#[trigger] broken(glyphs, cols)[k][x]),
        forall|a: int, b: int, x: int, y: int|
            0 <= a < b < broken(glyphs, cols).len() && 0 <= x < broken(glyphs, cols)[a].len()
                && 0 <= y < broken(glyphs, cols)[b].len() ==> glyph_before(
                #[trigger] broken(glyphs, cols)[a][x],
                #[trigger] broken(glyphs, cols)[b][y],
            ),
    decreases glyphs.len(),
{
    let n = fitting(glyphs, cols, cols);
    if glyphs.len() > 0 {
        if n < 1 || n > glyphs.len() {
            assert(broken(glyphs, cols) == seq![glyphs]);
        } else {
            let head = glyphs.take(n);
            let tail = glyphs.skip(n);
            lemma_glyphs_part(glyphs, 0, n, lo, hi);
            lemma_glyphs_part(glyphs, n, glyphs.len() as int, lo, hi);
            assert(glyphs.subrange(0, n) =~= head);
            assert(glyphs.subrange(n, glyphs.len() as int) =~= tail);
            lemma_broken(tail, cols, lo, hi);
            let rest = broken(tail, cols);
            let all = broken(glyphs, cols);
            assert(all == seq![head] + rest);
            assert forall|k: int| 0 <= k < all.len() implies (#[trigger] all[k]).len() > 0
                && glyphs_in_order(all[k], lo, hi) by {
                if k > 0 {
                    assert(all[k] == rest[k - 1]);
                }
            }
            assert forall|k: int, x: int|
                0 <= k < all.len() && 0 <= x < all[k].len() implies glyphs.contains(
                #[trigger] all[k][x],
            ) by {
                if k > 0 {
                    assert(all[k] == rest[k - 1]);
                    assert(tail.contains(rest[k - 1][x]));
                    let i = choose|i: int| 0 <= i < tail.len() && tail[i] == rest[k - 1][x];
                    assert(glyphs[n + i] == all[k][x]);
                } else {
                    assert(glyphs[x] == all[k][x]);
                }
            }
            assert forall|a: int, b: int, x: int, y: int|
                0 <= a < b < all.len() && 0 <= x < all[a].len() && 0 <= y
                    < all[b].len() implies glyph_before(
                #[trigger] all[a][x],
                #[trigger] all[b][y],
            ) by {
                assert(all[b] == rest[b - 1]);
                if a > 0 {
                    assert(all[a] == rest[a - 1]);
                    assert(glyph_before(rest[a - 1][x], rest[b - 1][y]));
                } else {
                    assert(tail.contains(rest[b - 1][y]));
                    let i = choose|i: int| 0 <= i < tail.len() && tail[i] == rest[b - 1][y];
                    assert(glyph_before(glyphs[x], glyphs[n + i]));
                }
            }
        }
    }
}

/// A part of characters in order is in order.
proof fn lemma_glyphs_part(glyphs: Seq<Glyph>, from: int, to: int, lo: int, hi: int)
    requires
        glyphs_in_order(glyphs, lo, hi),
        0 <= from <= to <= glyphs.len(),
    ensures
        glyphs_in_order(glyphs.subrange(from, to), lo, hi),
{
    let sub = glyphs.subrange(from, to);
    assert forall|i: int| 0 <= i < sub.len() implies lo <= (#[trigger] sub[i]).line < hi
        && sub[i].column + glyph_width(sub[i]) <= usize::MAX by {
        assert(sub[i] == glyphs[from + i]);
    }
    assert forall|i: int, j: int| 0 <= i < j < sub.len() implies glyph_before(
        #[trigger] sub[i],
        #[trigger] sub[j],
    ) by {
        assert(sub[i] == glyphs[from + i] && sub[j] == glyphs[from + j]);
    }
}

/// A row of characters shows them and nothing else, in their order.
proof fn lemma_glyph_row(glyphs: Seq<Glyph>, cols: int, wrapped: bool, lo: int, hi: int)
    requires
        glyphs_in_order(glyphs, lo, hi),
        glyphs.len() > 0,
        cols >= 1,
    ensures
        lies_within(glyph_row(glyphs, cols, wrapped), lo, hi),
        first_cell(glyph_row(glyphs, cols, wrapped).cells, 0) is Some,
        forall|j: int|
            0 <= j < cols && (#[trigger] glyph_row(glyphs, cols, wrapped).cells[j]) is Some
                ==> in_glyphs(glyphs, glyph_row(glyphs, cols, wrapped).cells[j]->0),
        in_line_order(seq![glyph_row(glyphs, cols, wrapped)]),
{
    let row = glyph_row(glyphs, cols, wrapped);
    let cells = glyphs_cells(glyphs, cols);
    lemma_glyphs_cells(glyphs, cols, lo, hi);
    assert(row.cells[0] == Some(cells[0]));
    assert(lo <= glyphs[0].line < hi);
    assert forall|j: int| 0 <= j < cols && (#[trigger] row.cells[j]) is Some implies in_glyphs(
        glyphs,
        row.cells[j]->0,
    ) && lo <= row.cells[j]->0.line < hi by {
        assert(in_glyphs(glyphs, cells[j]));
        let i = choose|i: int| 0 <= i < glyphs.len() && in_glyph(#[trigger] glyphs[i], cells[j]);
        assert(lo <= glyphs[i].line < hi);
    }
    let rows = seq![row];
    assert forall|r: int, i: int, j: int, p: (u64, usize), q: (u64, usize)|
        0 <= r < rows.len() && i < j && #[trigger] marks_at(rows[r].cells, i, p)
            && #[trigger] marks_at(rows[r].cells, j, q) implies place_before(p, q) by {
        assert(rows[r] == row);
        assert(row.cells[i] == Some(cells[i]) && row.cells[j] == Some(cells[j]));
    }
}

/// The rows of a logical line show its lines and nothing else, in their order.
proof fn lemma_glyph_rows(glyphs: Seq<Glyph>, cols: int, lo: int, hi: int)
    requires
        glyphs_in_order(glyphs, lo, hi),
        cols >= 1,
    ensures
        lie_within(glyph_rows(broken(glyphs, cols), cols), lo, hi),
        in_line_order(glyph_rows(broken(glyphs, cols), cols)),
{
    let groups = broken(glyphs, cols);
    let rows = glyph_rows(groups, cols);
    lemma_broken(glyphs, cols, lo, hi);
    assert forall|r: int| 0 <= r < rows.len() implies lies_within(#[trigger] rows[r], lo, hi) by {
        assert(groups[r].len() > 0);
        lemma_glyph_row(groups[r], cols, r + 1 < groups.len(), lo, hi);
    }
    assert forall|a: int, b: int, p: (u64, usize), q: (u64, usize)|
        0 <= a < b < rows.len() && #[trigger] marks(rows[a], p) && #[trigger] marks(
            rows[b],
            q,
        ) implies place_before(p, q) by {
        assert(groups[a].len() > 0 && groups[b].len() > 0);
        lemma_glyph_row(groups[a], cols, a + 1 < groups.len(), lo, hi);
        lemma_glyph_row(groups[b], cols, b + 1 < groups.len(), lo, hi);
        let i = choose|i: int| #[trigger] marks_at(rows[a].cells, i, p);
        let j = choose|j: int| #[trigger] marks_at(rows[b].cells, j, q);
        assert(in_glyphs(groups[a], rows[a].cells[i]->0));
        assert(in_glyphs(groups[b], rows[b].cells[j]->0));
        let x = choose|x: int|
            0 <= x < groups[a].len() && in_glyph(#[trigger] groups[a][x], rows[a].cells[i]->0);
        let y = choose|y: int|
            0 <= y < groups[b].len() && in_glyph(#[trigger] groups[b][y], rows[b].cells[j]->0);
        assert(glyph_before(groups[a][x], groups[b][y]));
    }
    assert forall|r: int, i: int, j: int, p: (u64, usize), q: (u64, usize)|
        0 <= r < rows.len() && i < j && #[trigger] marks_at(rows[r].cells, i, p)
            && #[trigger] marks_at(rows[r].cells, j, q) implies place_before(p, q) by {
        assert(groups[r].len() > 0);
        lemma_glyph_row(groups[r], cols, r + 1 < groups.len(), lo, hi);
        let one = seq![rows[r]];
        assert(one[0] == rows[r]);
        assert(marks_at(one[0].cells, i, p) && marks_at(one[0].cells, j, q));
    }
}

/// The rows of a logical line show its lines and nothing else, in their order.
pub proof fn lemma_logical_rows(lines: Seq<Line>, first: u64, from: int, to: int, cols: int)
    requires
        0 <= from < to <= lines.len(),
        first + to <= u64::MAX,
        cells_are_countable(lines),
        cols >= 1,
    ensures
        lie_within(logical_rows(lines, first, from, to, cols), first + from, first + to),
        in_line_order(logical_rows(lines, first, from, to, cols)),
        have_width(logical_rows(lines, first, from, to, cols), cols),
        cells_are_raw(logical_rows(lines, first, from, to, cols)),
{
    let glyphs = glyphs_of(lines, first, from, to);
    lemma_glyphs_of(lines, first, from, to);
    lemma_glyph_rows(glyphs, cols, first + from, first + to);
    if glyphs.len() == 0 {
        let row = empty_row(lines[from], saturating_sum(first, from), cols);
        lemma_first_cell(row.cells, 0);
        assert(logical_rows(lines, first, from, to, cols) == seq![row]);
    }
}

/// The rows of the history show its lines and nothing else, in their order.
pub proof fn lemma_history_rows(lines: Seq<Line>, first: u64, from: int, end: int, cols: int)
    requires
        0 <= from <= end <= lines.len(),
        first + end <= u64::MAX,
        cells_are_countable(lines),
        cols >= 1,
    ensures
        lie_within(history_rows(lines, first, from, end, cols), first + from, first + end),
        in_line_order(history_rows(lines, first, from, end, cols)),
        have_width(history_rows(lines, first, from, end, cols), cols),
        cells_are_raw(history_rows(lines, first, from, end, cols)),
    decreases end - from,
{
    if from < end {
        let next = logical_end(lines, from, end);
        lemma_logical_end(lines, from, end);
        lemma_logical_rows(lines, first, from, next, cols);
        lemma_history_rows(lines, first, next, end, cols);
        lemma_join(
            logical_rows(lines, first, from, next, cols),
            history_rows(lines, first, next, end, cols),
            first + from,
            first + next,
            first + end,
        );
    }
}

/// The rows of the screen show its lines and nothing else, in their order.
pub proof fn lemma_screen_rows(lines: Seq<Line>, first: u64, cols: int)
    requires
        first + lines.len() <= u64::MAX,
        1 <= cols <= usize::MAX,
    ensures
        lie_within(screen_rows(lines, first, cols), first as int, first + lines.len()),
        in_line_order(screen_rows(lines, first, cols)),
        have_width(screen_rows(lines, first, cols), cols),
        cells_are_raw(screen_rows(lines, first, cols)),
{
    let rows = screen_rows(lines, first, cols);
    assert forall|a: int, b: int, p: (u64, usize), q: (u64, usize)|
        0 <= a < b < rows.len() && #[trigger] marks(rows[a], p) && #[trigger] marks(
            rows[b],
            q,
        ) implies place_before(p, q) by {
        let number = saturating_sum(first, a);
        assert(rows[a] == screen_row(lines[a], number, cols));
        assert(lies_within(rows[a], first + a, first + a + 1));
        assert(lies_within(rows[b], first + b, first + b + 1));
        lemma_mark_within(rows[a], p, first + a, first + a + 1);
        lemma_mark_within(rows[b], q, first + b, first + b + 1);
    }
}

/// A document that folds nothing shows the lines of the terminal in their
/// order.
pub proof fn documents_are_in_order(
    history: Seq<Line>,
    screen: Seq<Line>,
    first: u64,
    cols: int,
)
    requires
        first + history.len() + screen.len() <= u64::MAX,
        cells_are_countable(history),
        1 <= cols <= usize::MAX,
    ensures
        in_line_order(identity_rows(history, screen, first, cols)),
        lie_within(
            identity_rows(history, screen, first, cols),
            first as int,
            first + history.len() + screen.len(),
        ),
        have_width(identity_rows(history, screen, first, cols), cols),
        cells_are_raw(identity_rows(history, screen, first, cols)),
{
    let len = history.len() as int;
    let edge = saturating_sum(first, len);
    lemma_history_rows(history, first, 0, len, cols);
    lemma_screen_rows(screen, edge, cols);
    lemma_join(
        history_rows(history, first, 0, len, cols),
        screen_rows(screen, edge, cols),
        first as int,
        edge as int,
        edge + screen.len(),
    );
}

} // verus!
