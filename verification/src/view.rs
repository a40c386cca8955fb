//! What the view shows: the live screen, or history reflowed to its width.

use std::collections::VecDeque;
use std::sync::Arc;
use vstd::prelude::*;

use crate::caches::ViewCaches;
use crate::caches::VisibleCellsCache;
use crate::cell::TerminalCell;
use crate::grid::copy_cells;
use crate::grid::repeated;
use crate::grid::GridRow;
use crate::grid::Line;
use crate::grid::RawRowId;
use crate::history::content_len;
use crate::history::history_lines;
use crate::history::lemma_content_len_bounds;
use crate::history::ScrollbackLine;
use crate::navigation::view_beginning;
use crate::state::TerminalState;
use crate::words::is_uniform;

verus! {

/// The content of a row: its cells without the trailing ones that reflow
/// drops.
pub open spec fn content(line: Line) -> Seq<TerminalCell> {
    line.cells.take(content_len(line.cells))
}

/// Where the logical line that begins on row `from` ends, within `end`.
pub open spec fn logical_end(lines: Seq<Line>, from: int, end: int) -> int
    decreases end - from,
{
    if from + 1 >= end || !lines[from].wrapped {
        from + 1
    } else {
        logical_end(lines, from + 1, end)
    }
}

/// The contents of the rows `from..to`, joined.
pub open spec fn joined(lines: Seq<Line>, from: int, to: int) -> Seq<TerminalCell>
    decreases to - from,
{
    if from >= to {
        Seq::empty()
    } else {
        joined(lines, from, to - 1) + content(lines[to - 1])
    }
}

/// How many rows of `cols` columns `n` cells take; no cells take one.
pub open spec fn chunk_count(n: int, cols: int) -> int {
    if n <= 0 {
        1
    } else {
        (n + cols - 1) / cols
    }
}

/// The `k`-th row of `cols` columns that `cells` fill.
pub open spec fn chunk(cells: Seq<TerminalCell>, k: int, cols: int, blank: TerminalCell) -> Seq<
    TerminalCell,
> {
    Seq::new(
        cols as nat,
        |c: int|
            if k * cols + c < cells.len() {
                cells[k * cols + c]
            } else {
                blank
            },
    )
}

/// The rows of `cols` columns that `cells` fill.
pub open spec fn chunks(cells: Seq<TerminalCell>, cols: int, blank: TerminalCell) -> Seq<
    Seq<TerminalCell>,
> {
    Seq::new(
        chunk_count(cells.len() as int, cols) as nat,
        |k: int| chunk(cells, k, cols, blank),
    )
}

/// The rows `from..end`, reflowed to `cols` columns.
pub open spec fn reflowed(
    lines: Seq<Line>,
    from: int,
    end: int,
    cols: int,
    blank: TerminalCell,
) -> Seq<Seq<TerminalCell>>
    decreases end - from,
{
    if from >= end {
        Seq::empty()
    } else {
        let next = logical_end(lines, from, end);
        if next <= from || next > end {
            Seq::empty()
        } else {
            chunks(joined(lines, from, next), cols, blank) + reflowed(
                lines,
                next,
                end,
                cols,
                blank,
            )
        }
    }
}

/// At most `count` rows of `rows`, `back` rows before the end.
pub open spec fn window<T>(rows: Seq<T>, back: int, count: int) -> Seq<T> {
    let start = if rows.len() < back {
        0
    } else {
        rows.len() - back
    };
    let end = if start + count < rows.len() {
        start + count
    } else {
        rows.len() as int
    };
    rows.subrange(start, end)
}

/// The cells of rows.
pub open spec fn cells_of(lines: Seq<Line>) -> Seq<Seq<TerminalCell>> {
    Seq::new(lines.len(), |r: int| lines[r].cells)
}

/// `rows` followed by the rows of the screen, cut to the height of the screen
/// and filled up with blanks.
pub open spec fn completed<T>(rows: Seq<T>, screen: Seq<T>, height: int, blank_row: T) -> Seq<T> {
    Seq::new(
        height as nat,
        |r: int|
            if r < rows.len() {
                rows[r]
            } else if r - rows.len() < screen.len() {
                screen[r - rows.len()]
            } else {
                blank_row
            },
    )
}

/// What the view shows when it is scrolled back by `offset`.
pub open spec fn visible_rows(state: TerminalState, offset: int) -> Seq<Seq<TerminalCell>> {
    if offset == 0 {
        cells_of(state.grid@)
    } else {
        let scrolled = TerminalState { scroll_offset: offset as usize, ..state };
        completed(
            window(
                reflowed(
                    state.history(),
                    view_beginning(scrolled),
                    state.history().len() as int,
                    state.cols(),
                    state.blank(),
                ),
                offset,
                state.rows(),
            ),
            cells_of(state.grid@),
            state.rows(),
            repeated(state.blank(), state.cols()),
        )
    }
}

/// Rows of cells as values.
pub open spec fn rows_view(rows: Seq<Vec<TerminalCell>>) -> Seq<Seq<TerminalCell>> {
    Seq::new(rows.len(), |r: int| rows[r]@)
}

/// Remembered rows are those of the version that they were computed for.
pub open spec fn view_cache_valid(state: TerminalState) -> bool {
    match state.caches.visible_cells {
        Some(cache) => cache.grid_version == state.grid_version ==> cache.scroll_offset
            <= state.history().len() && rows_view(cache.cells@) == visible_rows(
            state,
            cache.scroll_offset as int,
        ),
        None => true,
    }
}

/// Whether rows are remembered for the current version and scroll position.
pub open spec fn view_remembered(state: TerminalState) -> bool {
    match state.caches.visible_cells {
        Some(cache) => cache.grid_version == state.grid_version && cache.scroll_offset
            == state.scroll_offset && cache.cells@.len() == state.grid@.len(),
        None => false,
    }
}

/// What a request for the view gives: the remembered rows, or else the
/// current ones.
pub open spec fn view_given(state: TerminalState) -> Seq<Seq<TerminalCell>> {
    if view_remembered(state) {
        rows_view(state.caches.visible_cells->0.cells@)
    } else {
        visible_rows(state, state.scroll_offset as int)
    }
}

/// `post` is `pre` with the view remembered.
pub open spec fn view_requested(pre: TerminalState, post: TerminalState) -> bool {
    if view_remembered(pre) {
        post == pre
    } else {
        &&& view_remembered(post)
        &&& rows_view(post.caches.visible_cells->0.cells@) == view_given(pre)
        &&& post.caches == ViewCaches { visible_cells: post.caches.visible_cells, ..pre.caches }
        &&& post == TerminalState { caches: post.caches, ..pre }
    }
}

/// While remembered rows are those of their version, a request for the view
/// gives the current rows, and what is remembered stays so.
pub proof fn views_stay_current(pre: TerminalState, post: TerminalState)
    requires
        pre.core_wf(),
        view_cache_valid(pre),
        view_requested(pre, post),
    ensures
        view_given(pre) == visible_rows(pre, pre.scroll_offset as int),
        view_cache_valid(post),
{
    if !view_remembered(pre) {
        lemma_visible_ignores_caches(pre, post);
    }
}

/// Scrolling keeps remembered rows those of their version.
pub proof fn scrolling_keeps_views_current(pre: TerminalState, post: TerminalState)
    requires
        view_cache_valid(pre),
        post == (TerminalState { scroll_offset: post.scroll_offset, ..pre }),
    ensures
        view_cache_valid(post),
{
    assert(pre.history() == post.history());
    match pre.caches.visible_cells {
        Some(cache) => {
            lemma_view_beginning(pre, post, cache.scroll_offset as int);
        },
        None => {},
    }
}

/// Where the rows stay as they are, remembered rows stay those of their
/// version.
pub proof fn unchanged_rows_keep_views_current(pre: TerminalState, post: TerminalState)
    requires
        view_cache_valid(pre),
        post.grid == pre.grid,
        post.scrollback == pre.scrollback,
        post.current_bg == pre.current_bg,
        post.grid_version == pre.grid_version,
        post.caches.visible_cells is None || post.caches.visible_cells
            == pre.caches.visible_cells,
    ensures
        view_cache_valid(post),
{
    assert(pre.history() == post.history());
    match post.caches.visible_cells {
        Some(cache) => {
            lemma_view_beginning(pre, post, cache.scroll_offset as int);
        },
        None => {},
    }
}

/// `Arc::clone` of std: another pointer to the same value.
#[verifier::external_body]
pub(crate) fn share<T>(value: &Arc<T>) -> (shared: Arc<T>)
    ensures
        shared == *value,
{
    Arc::clone(value)
}

/// A logical line ends behind its beginning.
proof fn lemma_logical_end(lines: Seq<Line>, from: int, end: int)
    requires
        from < end,
    ensures
        from < logical_end(lines, from, end) <= end,
    decreases end - from,
{
    if from + 1 < end && lines[from].wrapped {
        lemma_logical_end(lines, from + 1, end);
    }
}

/// Counts the rows that `n` cells take.
pub fn count_chunks(n: u128, cols: usize) -> (count: u128)
    requires
        cols > 0,
        n <= 0x8000_0000_0000_0000_0000_0000_0000_0000,
    ensures
        count == chunk_count(n as int, cols as int),
        1 <= count,
        count <= n || count == 1,
{
    if n == 0 {
        return 1;
    }
    let wide: u128 = cols as u128;
    let count: u128 = (n + (wide - 1)) / wide;
    assert(1 <= count <= n) by (nonlinear_arith)
        requires
            n >= 1,
            wide >= 1,
            count == (n + (wide - 1)) / (wide as int),
    ;
    count
}

/// Where the logical line that begins on `start` ends, and how many cells it
/// has.
pub fn reflow_span(lines: &VecDeque<ScrollbackLine>, start: usize, end: usize) -> (span: (usize, u128))
    requires
        start < end <= lines@.len(),
        end <= usize::MAX / 2,
    ensures
        span.0 == logical_end(history_lines(lines@), start as int, end as int),
        start < span.0 <= end,
        span.1 == joined(history_lines(lines@), start as int, span.0 as int).len(),
        span.1 <= (span.0 - start) * 0x1_0000_0000_0000_0000,
{
    let ghost all = history_lines(lines@);
    let mut next: usize = start;
    let mut cells: u128 = 0;
    loop
        invariant_except_break
            start <= next < end,
            logical_end(all, start as int, end as int) == logical_end(
                all,
                next as int,
                end as int,
            ),
        invariant
            start < end <= lines@.len(),
            end <= usize::MAX / 2,
            all == history_lines(lines@),
            cells == joined(all, start as int, next as int).len(),
            cells <= (next - start) * 0x1_0000_0000_0000_0000,
        ensures
            start < next <= end,
            next == logical_end(all, start as int, end as int),
        decreases end - next,
    {
        let line = &lines[next];
        assert(all[next as int] == line@);
        proof {
            lemma_content_len_bounds(line@.cells);
        }
        let kept: usize = line.reflow_content_len();
        cells = cells + kept as u128;
        next = next + 1;
        if !line.is_wrapped || next >= end {
            break;
        }
    }
    (next, cells)
}

/// Collects the cells of a logical line.
fn collect_logical(lines: &VecDeque<ScrollbackLine>, from: usize, to: usize) -> (cells: Vec<
    TerminalCell,
>)
    requires
        from <= to <= lines@.len(),
    ensures
        cells@ == joined(history_lines(lines@), from as int, to as int),
{
    let ghost all = history_lines(lines@);
    let mut cells: Vec<TerminalCell> = Vec::new();
    let mut r: usize = from;
    while r < to
        invariant
            from <= r <= to <= lines@.len(),
            all == history_lines(lines@),
            cells@ == joined(all, from as int, r as int),
        decreases to - r,
    {
        let line = &lines[r];
        assert(all[r as int] == line@);
        let kept: usize = line.reflow_content_len();
        let ghost before = cells@;
        let mut i: usize = 0;
        assert(before + line@.cells.take(0) =~= before);
        while i < kept
            invariant
                i <= kept <= line@.cells.len(),
                line@.cells == line.cells@,
                cells@ == before + line@.cells.take(i as int),
            decreases kept - i,
        {
            cells.push(line.cells[i]);
            i = i + 1;
            assert(cells@ =~= before + line@.cells.take(i as int));
        }
        r = r + 1;
    }
    cells
}

/// Makes the `k`-th row that `cells` fill.
fn make_chunk(cells: &Vec<TerminalCell>, k: usize, cols: usize, blank: TerminalCell) -> (row: Vec<
    TerminalCell,
>)
    requires
        cols > 0,
        k < chunk_count(cells@.len() as int, cols as int),
    ensures
        row@ == chunk(cells@, k as int, cols as int, blank),
{
    let total: usize = cells.len();
    proof {
        lemma_chunk_start(total as int, k as int, cols as int);
    }
    let from: usize = k * cols;
    let mut row: Vec<TerminalCell> = Vec::new();
    let mut c: usize = 0;
    while c < cols
        invariant
            c <= cols,
            total == cells@.len(),
            from == k * cols,
            from <= total,
            row@ == chunk(cells@, k as int, cols as int, blank).take(c as int),
        decreases cols - c,
    {
        row.push(
            if c < total - from {
                cells[from + c]
            } else {
                blank
            },
        );
        c = c + 1;
        assert(row@ =~= chunk(cells@, k as int, cols as int, blank).take(c as int));
    }
    assert(row@ =~= chunk(cells@, k as int, cols as int, blank));
    row
}

/// The `k`-th row begins within the cells.
pub proof fn lemma_chunk_start(n: int, k: int, cols: int)
    requires
        cols > 0,
        n >= 0,
        0 <= k < chunk_count(n, cols),
    ensures
        0 <= k * cols <= n,
{
    if n == 0 {
        assert(k * cols == 0) by (nonlinear_arith)
            requires
                k == 0,
        ;
    } else {
        assert(k * cols <= n) by (nonlinear_arith)
            requires
                cols > 0,
                n > 0,
                k <= (n + cols - 1) / cols - 1,
        ;
        assert(0 <= k * cols) by (nonlinear_arith)
            requires
                cols > 0,
                k >= 0,
        ;
    }
}

/// How many reflowed rows there are.
pub fn count_reflowed(lines: &VecDeque<ScrollbackLine>, start: usize, end: usize, cols: usize) -> (n:
    u128)
    requires
        start <= end <= lines@.len(),
        end <= usize::MAX / 2,
        cols > 0,
    ensures
        forall|blank: TerminalCell|
            n == (#[trigger] reflowed(
                history_lines(lines@),
                start as int,
                end as int,
                cols as int,
                blank,
            )).len(),
        n <= (end - start) * 0x1_0000_0000_0000_0000,
{
    let ghost all = history_lines(lines@);
    let mut n: u128 = 0;
    let mut source: usize = start;
    while source < end
        invariant
            start <= source <= end <= lines@.len(),
            end <= usize::MAX / 2,
            cols > 0,
            all == history_lines(lines@),
            n <= (source - start) * 0x1_0000_0000_0000_0000,
            forall|blank: TerminalCell|
                (#[trigger] reflowed(all, start as int, end as int, cols as int, blank)).len() == n
                    + reflowed(all, source as int, end as int, cols as int, blank).len(),
        decreases end - source,
    {
        let (next, cells) = reflow_span(lines, source, end);
        let visual: u128 = count_chunks(cells, cols);
        n = n + visual;
        source = next;
    }
    n
}

/// The rows that a view shows of reflowed history. Only the logical lines that
/// the view reaches are put together.
fn reflowed_viewport_rows(
    lines: &VecDeque<ScrollbackLine>,
    start: usize,
    end: usize,
    cols: usize,
    scroll_offset: usize,
    viewport_rows: usize,
    blank: TerminalCell,
) -> (rows: Vec<Vec<TerminalCell>>)
    requires
        start <= end <= lines@.len(),
        end <= usize::MAX / 2,
        cols > 0,
    ensures
        rows_view(rows@) == window(
            reflowed(history_lines(lines@), start as int, end as int, cols as int, blank),
            scroll_offset as int,
            viewport_rows as int,
        ),
{
    let ghost all = history_lines(lines@);
    let ghost full = reflowed(all, start as int, end as int, cols as int, blank);
    let total: u128 = count_reflowed(lines, start, end, cols);
    assert(total == full.len());
    let target_start: u128 = if total < scroll_offset as u128 {
        0
    } else {
        total - scroll_offset as u128
    };
    let target_end: u128 = if target_start + (viewport_rows as u128) < total {
        target_start + viewport_rows as u128
    } else {
        total
    };
    let mut rows: Vec<Vec<TerminalCell>> = Vec::new();
    let mut source: usize = start;
    let mut visual_start: u128 = 0;
    assert(full.skip(0) =~= full);
    assert(rows_view(rows@) =~= full.subrange(target_start as int, target_start as int));
    while source < end && visual_start < target_end
        invariant
            start <= source <= end <= lines@.len(),
            end <= usize::MAX / 2,
            cols > 0,
            all == history_lines(lines@),
            full == reflowed(all, start as int, end as int, cols as int, blank),
            target_start <= target_end <= total == full.len(),
            total <= 0x8000_0000_0000_0000_0000_0000_0000_0000,
            visual_start <= total,
            full.skip(visual_start as int) == reflowed(
                all,
                source as int,
                end as int,
                cols as int,
                blank,
            ),
            rows_view(rows@) == full.subrange(
                target_start as int,
                clamped(visual_start as int, target_start as int, target_end as int),
            ),
        decreases end - source,
    {
        let (next, cells) = reflow_span(lines, source, end);
        let visual: u128 = count_chunks(cells, cols);
        let ghost rest = reflowed(all, source as int, end as int, cols as int, blank);
        let ghost logical = joined(all, source as int, next as int);
        let ghost tail = reflowed(all, next as int, end as int, cols as int, blank);
        assert(rest == chunks(logical, cols as int, blank) + tail);
        assert(full.skip(visual_start as int).len() == total - visual_start);
        let visual_end: u128 = visual_start + visual;
        assert(full.skip(visual_end as int) =~= tail) by {
            assert(forall|i: int|
                0 <= i < tail.len() ==> #[trigger] full.skip(visual_end as int)[i] == full.skip(
                    visual_start as int,
                )[i + visual]);
        }
        if visual_end > target_start {
            let line = collect_logical(lines, source, next);
            let line_len: usize = line.len();
            assert(visual <= 1 || visual <= line_len);
            assert forall|i: int| 0 <= i < visual implies #[trigger] full[visual_start + i]
                == chunk(logical, i, cols as int, blank) by {
                assert(full.skip(visual_start as int)[i] == full[visual_start + i]);
                assert(rest[i] == chunks(logical, cols as int, blank)[i]);
            }
            let first: usize = if visual_start < target_start {
                (target_start - visual_start) as usize
            } else {
                0
            };
            let left: u128 = target_end - visual_start;
            let last: usize = if left < visual {
                left as usize
            } else {
                visual as usize
            };
            let mut k: usize = first;
            let ghost from = clamped(
                visual_start as int,
                target_start as int,
                target_end as int,
            );
            assert(from == visual_start + first);
            while k < last
                invariant
                    first <= k <= last <= visual || k == first,
                    last <= visual,
                    cols > 0,
                    line@ == logical,
                    visual == chunk_count(line@.len() as int, cols as int),
                    visual_start + visual <= full.len(),
                    target_start <= visual_start + first,
                    visual_start + k <= full.len(),
                    forall|i: int|
                        0 <= i < visual ==> #[trigger] full[visual_start + i] == chunk(
                            logical,
                            i,
                            cols as int,
                            blank,
                        ),
                    rows_view(rows@) == full.subrange(target_start as int, visual_start + k),
                decreases last - k,
            {
                let row = make_chunk(&line, k, cols, blank);
                let ghost before = rows@;
                rows.push(row);
                assert(full[visual_start + k] == row@);
                assert(rows_view(rows@) =~= rows_view(before).push(row@));
                assert(full.subrange(target_start as int, visual_start + k + 1) =~= full.subrange(
                    target_start as int,
                    visual_start + k,
                ).push(full[visual_start + k]));
                k = k + 1;
            }
        }
        visual_start = visual_end;
        source = next;
    }
    assert(full.len() == visual_start + full.skip(visual_start as int).len());
    rows
}

/// Reflowed rows have the width that they were reflowed to.
proof fn lemma_reflowed_width(
    lines: Seq<Line>,
    from: int,
    end: int,
    cols: int,
    blank: TerminalCell,
)
    requires
        cols > 0,
    ensures
        forall|r: int|
            0 <= r < reflowed(lines, from, end, cols, blank).len() ==> (#[trigger] reflowed(
                lines,
                from,
                end,
                cols,
                blank,
            )[r]).len() == cols,
    decreases end - from,
{
    if from < end {
        let next = logical_end(lines, from, end);
        if from < next <= end {
            lemma_reflowed_width(lines, next, end, cols, blank);
            let cells = joined(lines, from, next);
            let head = chunks(cells, cols, blank);
            let tail = reflowed(lines, next, end, cols, blank);
            let all = reflowed(lines, from, end, cols, blank);
            assert(all == head + tail);
            assert forall|r: int| 0 <= r < all.len() implies (#[trigger] all[r]).len() == cols by {
                if r < head.len() {
                    assert(all[r] == chunk(cells, r, cols, blank));
                } else {
                    assert(all[r] == tail[r - head.len()]);
                }
            }
        }
    }
}

/// The stored lines of a logical line in rows of `cols` columns: all but the
/// last continue.
pub open spec fn chunk_lines(cells: Seq<TerminalCell>, cols: int, blank: TerminalCell) -> Seq<Line> {
    let count = chunk_count(cells.len() as int, cols);
    Seq::new(
        count as nat,
        |k: int|
            Line {
                cells: chunk(cells, k, cols, blank),
                wrapped: k + 1 < count,
                id: RawRowId { raw: 0 },
            },
    )
}

/// The rows `from..end`, reflowed to `cols` columns, as stored lines.
pub open spec fn reflowed_lines(
    lines: Seq<Line>,
    from: int,
    end: int,
    cols: int,
    blank: TerminalCell,
) -> Seq<Line>
    decreases end - from,
{
    if from >= end {
        Seq::empty()
    } else {
        let next = logical_end(lines, from, end);
        if next <= from || next > end {
            Seq::empty()
        } else {
            chunk_lines(joined(lines, from, next), cols, blank) + reflowed_lines(
                lines,
                next,
                end,
                cols,
                blank,
            )
        }
    }
}

/// Appends the stored lines of a logical line.
fn append_chunk_lines(
    result: &mut Vec<ScrollbackLine>,
    cells: &Vec<TerminalCell>,
    cols: usize,
    blank: TerminalCell,
)
    requires
        cols > 0,
    ensures
        history_lines(final(result)@) == history_lines(old(result)@) + chunk_lines(
            cells@,
            cols as int,
            blank,
        ),
{
    let ghost before = history_lines(result@);
    let ghost own = chunk_lines(cells@, cols as int, blank);
    let total: usize = cells.len();
    let count: u128 = count_chunks(total as u128, cols);
    let mut k: usize = 0;
    assert(before + own.take(0) =~= before);
    while (k as u128) < count
        invariant
            cols > 0,
            count == chunk_count(cells@.len() as int, cols as int),
            total == cells@.len(),
            count <= total || count == 1,
            k <= count,
            own == chunk_lines(cells@, cols as int, blank),
            history_lines(result@) == before + own.take(k as int),
        decreases count - k,
    {
        let row = make_chunk(cells, k, cols, blank);
        let line = ScrollbackLine::compress(&row, (k as u128) < count - 1);
        assert(line@ == own[k as int]);
        let ghost prior = result@;
        result.push(line);
        assert(history_lines(result@) =~= history_lines(prior).push(line@));
        k = k + 1;
        assert(history_lines(result@) =~= before + own.take(k as int));
    }
    assert(own.take(k as int) =~= own);
}

/// A position brought into a range.
pub open spec fn clamped(n: int, low: int, high: int) -> int {
    if n < low {
        low
    } else if n > high {
        high
    } else {
        n
    }
}


/// Copies the rows of a screen.
fn copy_rows(rows: &Vec<GridRow>) -> (out: Vec<Vec<TerminalCell>>)
    ensures
        rows_view(out@) == Seq::new(rows@.len(), |r: int| rows@[r].cells@),
{
    let mut out: Vec<Vec<TerminalCell>> = Vec::new();
    let ghost all = Seq::new(rows@.len(), |r: int| rows@[r].cells@);
    let mut r: usize = 0;
    assert(rows_view(out@) =~= all.take(0));
    while r < rows.len()
        invariant
            r <= rows@.len(),
            all == Seq::new(rows@.len(), |r: int| rows@[r].cells@),
            rows_view(out@) == all.take(r as int),
        decreases rows.len() - r,
    {
        let ghost before = out@;
        let row = copy_cells(&rows[r].cells);
        out.push(row);
        assert(rows_view(out@) =~= rows_view(before).push(row@));
        r = r + 1;
        assert(rows_view(out@) =~= all.take(r as int));
    }
    assert(all.take(r as int) =~= all);
    out
}

impl TerminalState {
    /// Reflows stored lines to `cols` columns.
    pub fn reflow_lines(lines: &VecDeque<ScrollbackLine>, cols: usize, blank: &TerminalCell) -> (
    result: Vec<ScrollbackLine>)
        requires
            cols > 0,
            lines.len() <= usize::MAX / 2,
        ensures
            history_lines(result@) == reflowed_lines(
                history_lines(lines@),
                0,
                lines@.len() as int,
                cols as int,
                *blank,
            ),
    {
        let ghost all = history_lines(lines@);
        let end: usize = lines.len();
        let ghost target = reflowed_lines(all, 0, end as int, cols as int, *blank);
        let mut result: Vec<ScrollbackLine> = Vec::new();
        let mut source: usize = 0;
        assert(history_lines(result@) + target =~= target);
        while source < end
            invariant
                source <= end == lines@.len(),
                end <= usize::MAX / 2,
                cols > 0,
                all == history_lines(lines@),
                history_lines(result@) + reflowed_lines(
                    all,
                    source as int,
                    end as int,
                    cols as int,
                    *blank,
                ) == target,
            decreases end - source,
        {
            let (next, _) = reflow_span(lines, source, end);
            let cells = collect_logical(lines, source, next);
            let ghost before = history_lines(result@);
            append_chunk_lines(&mut result, &cells, cols, *blank);
            proof {
                let own = chunk_lines(cells@, cols as int, *blank);
                let rest = reflowed_lines(all, next as int, end as int, cols as int, *blank);
                assert((before + own) + rest =~= before + (own + rest));
            }
            source = next;
        }
        assert(history_lines(result@) + Seq::<Line>::empty() =~= history_lines(result@));
        result
    }

    /// What a scrolled view shows.
    fn scrolled_rows(&self) -> (rows: Vec<Vec<TerminalCell>>)
        requires
            self.core_wf(),
            self.scroll_offset != 0,
        ensures
            rows_view(rows@) == visible_rows(*self, self.scroll_offset as int),
            is_uniform(rows_view(rows@)),
            rows@.len() == self.rows(),
    {
        let height: usize = self.grid.rows.len();
        let cols: usize = self.grid.cols;
        let blank = self.create_blank_cell();
        let start: usize = self.find_view_beginning();
        assert(TerminalState { scroll_offset: self.scroll_offset, ..*self } == *self);
        let mut rows = reflowed_viewport_rows(
            &self.scrollback,
            start,
            self.scrollback.len(),
            cols,
            self.scroll_offset,
            height,
            blank,
        );
        let ghost shown = rows_view(rows@);
        let ghost screen = cells_of(self.grid@);
        let ghost blank_row = repeated(blank, cols as int);
        let ghost target = completed(shown, screen, height as int, blank_row);
        let mut next: usize = 0;
        assert(rows_view(rows@) =~= target.take(shown.len() as int));
        while rows.len() < height
            invariant
                self.core_wf(),
                height == self.rows(),
                cols == self.cols(),
                screen == cells_of(self.grid@),
                blank_row == repeated(blank, cols as int),
                target == completed(shown, screen, height as int, blank_row),
                shown.len() <= height,
                rows@.len() <= height,
                next + shown.len() == rows@.len(),
                rows_view(rows@) == target.take(rows@.len() as int),
            decreases height - rows@.len(),
        {
            let ghost before = rows@;
            let row = if next < self.grid.rows.len() {
                copy_cells(&self.grid.rows[next].cells)
            } else {
                vec![blank; cols]
            };
            assert(next < self.grid.rows@.len() ==> row@ == screen[next as int]);
            assert(next >= self.grid.rows@.len() ==> row@ =~= blank_row);
            assert(target[rows@.len() as int] == row@);
            rows.push(row);
            assert(rows_view(rows@) =~= rows_view(before).push(row@));
            assert(target.take(rows@.len() as int) =~= target.take(before.len() as int).push(
                target[before.len() as int],
            ));
            next = next + 1;
        }
        assert(target.take(rows@.len() as int) =~= target);
        proof {
            lemma_reflowed_width(
                self.history(),
                start as int,
                self.history().len() as int,
                cols as int,
                blank,
            );
            assert forall|r: int| 0 <= r < target.len() implies (#[trigger] target[r]).len()
                == cols by {
                if r >= shown.len() && r - shown.len() < screen.len() {
                    assert(screen[r - shown.len()] == self.grid.rows@[r - shown.len()].cells@);
                }
            }
        }
        rows
    }

    /// What the view shows.
    fn current_rows(&self) -> (rows: Vec<Vec<TerminalCell>>)
        requires
            self.core_wf(),
        ensures
            rows_view(rows@) == visible_rows(*self, self.scroll_offset as int),
            is_uniform(rows_view(rows@)),
            rows@.len() == self.rows(),
    {
        if self.scroll_offset == 0 {
            let rows = copy_rows(&self.grid.rows);
            assert(rows_view(rows@) =~= cells_of(self.grid@));
            rows
        } else {
            self.scrolled_rows()
        }
    }

    /// The cells that the view shows. They are remembered until the screen
    /// changes.
    pub fn get_visible_cells(&mut self) -> (cells: Arc<Vec<Vec<TerminalCell>>>)
        requires
            old(self).core_wf(),
        ensures
            final(self).core_wf(),
            rows_view(cells@) == view_given(*old(self)),
            is_uniform(rows_view(cells@)),
            cells@.len() == old(self).rows(),
            view_requested(*old(self), *final(self)),
    {
        proof {
            reveal(ViewCaches::wf);
        }
        if let Some(cache) = &self.caches.visible_cells {
            if cache.grid_version == self.grid_version && cache.scroll_offset
                == self.scroll_offset && cache.cells.len() == self.grid.rows() {
                return share(&cache.cells);
            }
        }
        let cells = Arc::new(self.current_rows());
        let shared = share(&cells);
        self.caches.visible_cells = Some(
            VisibleCellsCache {
                grid_version: self.grid_version,
                scroll_offset: self.scroll_offset,
                cells: shared,
            },
        );
        cells
    }

    /// Which rows of the view continue on the next; none while the view is
    /// scrolled back.
    pub fn get_visible_row_wrapped(&self) -> (wrapped: Vec<bool>)
        ensures
            wrapped@ == if self.scroll_offset == 0 {
                Seq::new(self.grid@.len(), |r: int| self.grid@[r].wrapped)
            } else {
                Seq::new(self.grid@.len(), |r: int| false)
            },
    {
        let height: usize = self.grid.rows.len();
        if self.scroll_offset != 0 {
            let wrapped: Vec<bool> = vec![false; height];
            assert(wrapped@ =~= Seq::new(self.grid@.len(), |r: int| false));
            return wrapped;
        }
        let ghost all = Seq::new(self.grid@.len(), |r: int| self.grid@[r].wrapped);
        let mut wrapped: Vec<bool> = Vec::new();
        let mut r: usize = 0;
        while r < height
            invariant
                r <= height == self.grid@.len(),
                all == Seq::new(self.grid@.len(), |r: int| self.grid@[r].wrapped),
                wrapped@ == all.take(r as int),
            decreases height - r,
        {
            wrapped.push(self.grid.rows[r].wrapped);
            r = r + 1;
            assert(wrapped@ =~= all.take(r as int));
        }
        assert(all.take(r as int) =~= all);
        wrapped
    }
}

/// What a view shows does not depend on what is remembered of it.
pub proof fn lemma_visible_ignores_caches(a: TerminalState, b: TerminalState)
    requires
        b == (TerminalState { caches: b.caches, ..a }),
    ensures
        forall|offset: int| visible_rows(b, offset) == #[trigger] visible_rows(a, offset),
{
    assert forall|offset: int| visible_rows(b, offset) == #[trigger] visible_rows(a, offset) by {
        assert(a.history() == b.history());
        lemma_view_beginning(a, b, offset);
    }
}

/// Where a scrolled view begins depends on the history and the height alone.
pub proof fn lemma_view_beginning(a: TerminalState, b: TerminalState, offset: int)
    requires
        a.scrollback == b.scrollback,
        a.grid == b.grid,
    ensures
        view_beginning(TerminalState { scroll_offset: offset as usize, ..a }) == view_beginning(
            TerminalState { scroll_offset: offset as usize, ..b },
        ),
{
}

/// Reflow keeps every cell of a logical line, in its order, and adds nothing
/// but blanks behind the last one.
pub proof fn reflow_keeps_contents(cells: Seq<TerminalCell>, cols: int, blank: TerminalCell, i: int)
    requires
        cols >= 1,
        0 <= i,
        i / cols < chunks(cells, cols, blank).len(),
    ensures
        i < cells.len() ==> chunks(cells, cols, blank)[i / cols][i % cols] == cells[i],
        i >= cells.len() ==> chunks(cells, cols, blank)[i / cols][i % cols] == blank,
{
    let k = i / cols;
    assert(k * cols + i % cols == i && 0 <= i % cols < cols && 0 <= k) by (nonlinear_arith)
        requires
            k == i / cols,
            cols >= 1,
            0 <= i,
    ;
    assert(chunks(cells, cols, blank)[k] == chunk(cells, k, cols, blank));
}

/// The rows of a logical line have room for all its cells.
pub proof fn reflow_has_room(cells: Seq<TerminalCell>, cols: int, blank: TerminalCell, i: int)
    requires
        cols >= 1,
        0 <= i < cells.len(),
    ensures
        i / cols < chunks(cells, cols, blank).len(),
{
    let n = cells.len() as int;
    assert(i / cols < (n + cols - 1) / cols) by (nonlinear_arith)
        requires
            0 <= i < n,
            cols >= 1,
    ;
}

} // verus!
