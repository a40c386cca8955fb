//! A view shows no cell of the terminal twice.

use vstd::prelude::*;

use crate::fold_laws::lemma_countable;
use crate::geometry::chunk_places;
use crate::geometry::describes;
use crate::geometry::line_places;
use crate::geometry::origin_at;
use crate::geometry::places;
use crate::geometry::reflowed_places;
use crate::geometry::screen_places;
use crate::geometry::view_places;
use crate::geometry::Place;
use crate::geometry::RowPlaces;
use crate::grid::Line;
use crate::history::content_len;
use crate::history::lemma_content_len_bounds;
use crate::layout::lemma_logical_end;
use crate::line_order::cells_are_countable;
use crate::navigation::line_beginning;
use crate::navigation::view_beginning;
use crate::projection::OriginSpan;
use crate::projection::RawRowSource;
use crate::spans::maps_once;
use crate::state::rows_named_once;
use crate::state::TerminalState;
use crate::view::logical_end;
use crate::view::window;

verus! {

/// Whether one place comes before another.
spec fn place_leads(a: Place, b: Place) -> bool {
    a.row < b.row || (a.row == b.row && a.column < b.column)
}

/// The places of a logical line come in order.
proof fn lemma_places_rise(lines: Seq<Line>, from: int, to: int)
    requires
        0 <= from <= to <= lines.len(),
        lines.len() <= usize::MAX,
        cells_are_countable(lines),
    ensures
        forall|i: int|
            0 <= i < places(lines, from, to).len() ==> from <= (#[trigger] places(
                lines,
                from,
                to,
            )[i]).row < to,
        forall|i: int, j: int|
            0 <= i < j < places(lines, from, to).len() ==> place_leads(
                #[trigger] places(lines, from, to)[i],
                #[trigger] places(lines, from, to)[j],
            ),
    decreases to - from,
{
    if from < to {
        lemma_places_rise(lines, from, to - 1);
        lemma_content_len_bounds(lines[to - 1].cells);
        assert(lines[to - 1].cells.len() <= usize::MAX);
        let head = places(lines, from, to - 1);
        let own = Seq::new(
            content_len(lines[to - 1].cells) as nat,
            |c: int| Place { row: (to - 1) as usize, column: c as usize },
        );
        let all = places(lines, from, to);
        let n = head.len() as int;
        assert(all == head + own);
        assert forall|i: int| 0 <= i < all.len() implies from <= (#[trigger] all[i]).row < to by {
            if i < n {
                assert(all[i] == head[i]);
            } else {
                assert(all[i] == own[i - n]);
            }
        }
        assert forall|i: int, j: int| 0 <= i < j < all.len() implies place_leads(
            #[trigger] all[i],
            #[trigger] all[j],
        ) by {
            if j < n {
                assert(all[i] == head[i] && all[j] == head[j]);
            } else if i >= n {
                assert(all[i] == own[i - n] && all[j] == own[j - n]);
            } else {
                assert(all[i] == head[i] && all[j] == own[j - n]);
            }
        }
    }
}

/// Whether column `c` of row `r` of a view comes from a place.
spec fn placed_at(rows: Seq<RowPlaces>, r: int, c: int, place: Place) -> bool {
    &&& 0 <= r < rows.len()
    &&& 0 <= c < rows[r].cells.len()
    &&& rows[r].cells[c] == Some(place)
}

/// Rows of a view that come from the absolute rows `lo..hi`, in their order.
spec fn rows_rise(rows: Seq<RowPlaces>, lo: int, hi: int) -> bool {
    &&& forall|r: int, c: int, p: Place| #[trigger]
        placed_at(rows, r, c, p) ==> lo <= p.row < hi
    &&& forall|r: int, c: int, q: int, k: int, a: Place, b: Place|
        #[trigger] placed_at(rows, r, c, a) && #[trigger] placed_at(rows, q, k, b) && (r < q || (r
            == q && c < k)) ==> place_leads(a, b)
}

/// Rows in order may follow each other.
proof fn lemma_rise_join(a: Seq<RowPlaces>, b: Seq<RowPlaces>, lo: int, mid: int, hi: int)
    requires
        rows_rise(a, lo, mid),
        rows_rise(b, mid, hi),
        lo <= mid <= hi,
    ensures
        rows_rise(a + b, lo, hi),
{
    let all = a + b;
    let n = a.len() as int;
    assert forall|r: int, c: int, p: Place| #[trigger] placed_at(all, r, c, p) implies lo <= p.row
        < hi by {
        if r < n {
            assert(placed_at(a, r, c, p));
        } else {
            assert(placed_at(b, r - n, c, p));
        }
    }
    assert forall|r: int, c: int, q: int, k: int, x: Place, y: Place|
        #[trigger] placed_at(all, r, c, x) && #[trigger] placed_at(all, q, k, y) && (r < q || (r
            == q && c < k)) implies place_leads(x, y) by {
        if q < n {
            assert(placed_at(a, r, c, x) && placed_at(a, q, k, y));
        } else if r >= n {
            assert(placed_at(b, r - n, c, x) && placed_at(b, q - n, k, y));
        } else {
            assert(placed_at(a, r, c, x) && placed_at(b, q - n, k, y));
        }
    }
}

/// The rows of a logical line come in order.
proof fn lemma_line_rises(lines: Seq<Line>, from: int, next: int, cols: int)
    requires
        0 <= from <= next <= lines.len(),
        lines.len() <= usize::MAX,
        cells_are_countable(lines),
        cols > 0,
    ensures
        rows_rise(line_places(lines, from, next, cols), from, next),
{
    let all = places(lines, from, next);
    let rows = line_places(lines, from, next, cols);
    lemma_places_rise(lines, from, next);
    assert forall|r: int, c: int, p: Place| #[trigger] placed_at(rows, r, c, p) implies from
        <= p.row < next && 0 <= r * cols + c < all.len() && all[r * cols + c] == p by {
        assert(rows[r] == chunk_places(all, from, r, cols));
        assert(0 <= r * cols) by (nonlinear_arith)
            requires
                r >= 0,
                cols > 0,
        ;
    }
    assert forall|r: int, c: int, q: int, k: int, a: Place, b: Place|
        #[trigger] placed_at(rows, r, c, a) && #[trigger] placed_at(rows, q, k, b) && (r < q || (r
            == q && c < k)) implies place_leads(a, b) by {
        assert(rows[r] == chunk_places(all, from, r, cols));
        assert(r * cols + c < q * cols + k) by (nonlinear_arith)
            requires
                r < q || (r == q && c < k),
                0 <= c < cols,
                0 <= k,
                cols > 0,
        ;
        assert(all[r * cols + c] == a && all[q * cols + k] == b);
    }
}

/// Reflowed rows come in order.
proof fn lemma_reflowed_rises(lines: Seq<Line>, from: int, end: int, cols: int)
    requires
        0 <= from <= end <= lines.len(),
        lines.len() <= usize::MAX,
        cells_are_countable(lines),
        cols > 0,
    ensures
        rows_rise(reflowed_places(lines, from, end, cols), from, end),
    decreases end - from,
{
    if from < end {
        let next = logical_end(lines, from, end);
        lemma_logical_end(lines, from, end);
        lemma_line_rises(lines, from, next, cols);
        lemma_reflowed_rises(lines, next, end, cols);
        lemma_rise_join(
            line_places(lines, from, next, cols),
            reflowed_places(lines, next, end, cols),
            from,
            next,
            end,
        );
    }
}

/// A logical line begins on a row of the history.
pub proof fn lemma_line_begins(lines: Seq<Line>, row: int)
    requires
        0 <= row,
    ensures
        0 <= line_beginning(lines, row) <= row,
    decreases row,
{
    if row > 0 && lines[row - 1].wrapped {
        lemma_line_begins(lines, row - 1);
    }
}

/// Whether no place is shown twice, and all of them are rows of the terminal.
spec fn places_once(rows: Seq<RowPlaces>, len: int) -> bool {
    &&& forall|r: int, c: int, p: Place| #[trigger] placed_at(rows, r, c, p) ==> p.row < len
    &&& forall|r: int, c: int, q: int, k: int, p: Place|
        #[trigger] placed_at(rows, r, c, p) && #[trigger] placed_at(rows, q, k, p) ==> r == q && c
            == k
}

/// A view shows no place twice.
proof fn lemma_view_places_once(state: TerminalState)
    requires
        state.core_wf(),
    ensures
        places_once(view_places(state), state.document().len() as int),
{
    let history = state.history();
    let h = history.len() as int;
    let cols = state.cols();
    lemma_countable(state);
    let full = if state.scroll_offset == 0 {
        Seq::<RowPlaces>::empty()
    } else {
        reflowed_places(history, view_beginning(state), h, cols)
    };
    if state.scroll_offset != 0 {
        lemma_line_begins(
            history,
            if h < state.scroll_offset + state.rows() {
                0
            } else {
                h - (state.scroll_offset + state.rows())
            },
        );
        lemma_reflowed_rises(history, view_beginning(state), h, cols);
    }
    let shown = if state.scroll_offset == 0 {
        full
    } else {
        window(full, state.scroll_offset as int, state.rows())
    };
    let back = if full.len() < state.scroll_offset {
        0
    } else {
        full.len() - state.scroll_offset
    };
    let n = shown.len() as int;
    let view = view_places(state);
    assert forall|r: int| 0 <= r < n implies #[trigger] shown[r] == full[back + r] by {}
    assert forall|r: int, c: int, p: Place| #[trigger] placed_at(view, r, c, p) implies if r < n {
        placed_at(full, back + r, c, p)
    } else {
        &&& r - n < state.rows()
        &&& p == Place { row: (h + r - n) as usize, column: c as usize }
        &&& 0 <= c < cols
    } by {
        if r < n {
            assert(view[r] == shown[r]);
        } else if r - n < state.rows() {
            assert(view[r] == screen_places(state, r - n));
        }
    }
    assert forall|r: int, c: int, p: Place| #[trigger] placed_at(view, r, c, p) implies p.row
        < state.document().len() by {
        if r < n {
            assert(placed_at(full, back + r, c, p));
        }
    }
    assert forall|r: int, c: int, q: int, k: int, p: Place|
        #[trigger] placed_at(view, r, c, p) && #[trigger] placed_at(view, q, k, p) implies r == q
        && c == k by {
        if r < n {
            assert(placed_at(full, back + r, c, p));
        }
        if q < n {
            assert(placed_at(full, back + q, k, p));
        }
    }
}

/// No two cells of a view without folding come from the same cell.
pub proof fn lemma_view_maps_once(
    state: TerminalState,
    origins: Seq<OriginSpan>,
    sources: Seq<Option<RawRowSource>>,
)
    requires
        state.core_wf(),
        describes(state, view_places(state), origins, sources),
    ensures
        maps_once(origins),
{
    let rows = view_places(state);
    lemma_view_places_once(state);
    assert forall|r: int, c: int, q: int, k: int|
        (#[trigger] origin_at(origins, r, c)) is Some
            && origin_at(origins, r, c)
            == #[trigger] origin_at(origins, q, k) implies r == q && c == k by {
        let a = rows[r].cells[c]->0;
        let b = rows[q].cells[k]->0;
        assert(placed_at(rows, r, c, a) && placed_at(rows, q, k, b));
        lemma_same_row(state, a.row as int, b.row as int);
        assert(a == b);
    }
}

/// Rows of the terminal that share an identity are one row.
pub proof fn lemma_same_row(state: TerminalState, i: int, j: int)
    requires
        state.core_wf(),
        0 <= i < state.document().len(),
        0 <= j < state.document().len(),
        state.document()[i].id.raw != 0,
        state.document()[i].id == state.document()[j].id,
    ensures
        i == j,
{
    reveal(rows_named_once);
    let h = state.history().len() as int;
    if i < h && j < h {
        assert(state.history()[i].id == state.history()[j].id);
    } else if i >= h && j >= h {
        assert(state.grid@[i - h].id == state.grid@[j - h].id);
    } else if i < h {
        assert(state.history()[i].id == state.grid@[j - h].id);
    } else {
        assert(state.history()[j].id == state.grid@[i - h].id);
    }
}

} // verus!
