//! Where the cells of a view come from.

use std::collections::VecDeque;
use vstd::prelude::*;

use crate::cell::blank_cell;
use crate::cell::Color;
use crate::cell::TerminalCell;
use crate::document::RawCellAnchor;
use crate::grid::Line;
use crate::grid::RawRowId;
use crate::history::content_len;
use crate::history::history_lines;
use crate::history::lemma_content_len_bounds;
use crate::history::ScrollbackLine;
use crate::navigation::view_beginning;
use crate::placing::lemma_view_maps_once;
use crate::plan::capped_sum;
use crate::projection::DisplayPoint;
use crate::projection::OriginSpan;
use crate::projection::RawRowSource;
use crate::spans::exact_origins;
use crate::spans::lemma_next_column;
use crate::spans::lemma_next_row;
use crate::spans::lemma_no_spans;
use crate::spans::lemma_origins_are_exact;
use crate::spans::lemma_span_begun;
use crate::spans::lemma_span_extended;
use crate::spans::lemma_spans_end;
use crate::spans::span_fits;
use crate::spans::spans_end;
use crate::spans::spans_in_order;
use crate::state::TerminalState;
use crate::view::chunk_count;
use crate::view::clamped;
use crate::view::completed;
use crate::view::count_chunks;
use crate::view::count_reflowed;
use crate::view::joined;
use crate::view::lemma_chunk_start;
use crate::view::logical_end;
use crate::view::reflow_span;
use crate::view::reflowed;
use crate::view::window;

verus! {

/// A cell of an absolute row.
#[derive(Clone, Copy, Debug, PartialEq, Eq, Structural)]
pub struct Place {
    pub row: usize,
    pub column: usize,
}

/// Where a row of a view comes from: the absolute row that it begins on, if
/// any, and the place of each of its cells that has one.
pub struct RowPlaces {
    pub owner: Option<usize>,
    pub cells: Seq<Option<Place>>,
}

/// The places of the cells that reflow keeps of the rows `from..to`.
pub open spec fn places(lines: Seq<Line>, from: int, to: int) -> Seq<Place>
    decreases to - from,
{
    if from >= to {
        Seq::empty()
    } else {
        places(lines, from, to - 1) + Seq::new(
            content_len(lines[to - 1].cells) as nat,
            |c: int| Place { row: (to - 1) as usize, column: c as usize },
        )
    }
}

/// Where the `k`-th row of `cols` columns of a logical line that begins on row
/// `from` comes from.
pub open spec fn chunk_places(all: Seq<Place>, from: int, k: int, cols: int) -> RowPlaces {
    RowPlaces {
        owner: Some(
            if k * cols < all.len() {
                all[k * cols].row
            } else {
                from as usize
            },
        ),
        cells: Seq::new(
            cols as nat,
            |c: int|
                if k * cols + c < all.len() {
                    Some(all[k * cols + c])
                } else {
                    None
                },
        ),
    }
}

/// Where the rows of a logical line come from.
pub open spec fn line_places(lines: Seq<Line>, from: int, next: int, cols: int) -> Seq<RowPlaces> {
    let all = places(lines, from, next);
    Seq::new(chunk_count(all.len() as int, cols) as nat, |k: int| chunk_places(all, from, k, cols))
}

/// Where the rows `from..end`, reflowed to `cols` columns, come from.
pub open spec fn reflowed_places(lines: Seq<Line>, from: int, end: int, cols: int) -> Seq<RowPlaces>
    decreases end - from,
{
    if from >= end {
        Seq::empty()
    } else {
        let next = logical_end(lines, from, end);
        if next <= from || next > end {
            Seq::empty()
        } else {
            line_places(lines, from, next, cols) + reflowed_places(lines, next, end, cols)
        }
    }
}

/// Where row `r` of the screen comes from.
pub open spec fn screen_places(state: TerminalState, r: int) -> RowPlaces {
    let row = (state.scrollback@.len() + r) as usize;
    RowPlaces {
        owner: Some(row),
        cells: Seq::new(
            state.cols() as nat,
            |c: int| Some(Place { row, column: c as usize }),
        ),
    }
}

/// A row of a view that comes from nowhere.
pub open spec fn no_places(cols: int) -> RowPlaces {
    RowPlaces { owner: None, cells: Seq::new(cols as nat, |c: int| None) }
}

/// Where the rows of the view come from.
pub open spec fn view_places(state: TerminalState) -> Seq<RowPlaces> {
    let screen = Seq::new(state.grid@.len(), |r: int| screen_places(state, r));
    if state.scroll_offset == 0 {
        screen
    } else {
        completed(
            window(
                reflowed_places(
                    state.history(),
                    view_beginning(state),
                    state.history().len() as int,
                    state.cols(),
                ),
                state.scroll_offset as int,
                state.rows(),
            ),
            screen,
            state.rows(),
            no_places(state.cols()),
        )
    }
}

/// The cell of a physical row at a place, where the row has an identity.
pub open spec fn anchor_at(state: TerminalState, place: Option<Place>) -> Option<RawCellAnchor> {
    match place {
        Some(place) => {
            let id = state.document()[place.row as int].id;
            if id.spec_is_tracked() {
                Some(RawCellAnchor { row_id: id, column: place.column })
            } else {
                None
            }
        },
        None => None,
    }
}

/// The physical row of an absolute row.
pub open spec fn source_at(state: TerminalState, owner: Option<usize>) -> Option<RawRowSource> {
    match owner {
        Some(row) => Some(
            RawRowSource { raw_row: state.document()[row as int].id, raw_absolute_row: row },
        ),
        None => None,
    }
}

/// Whether a span reaches a cell of a view.
pub open spec fn span_covers(span: OriginSpan, row: int, column: int) -> bool {
    &&& span.display_start.row == row
    &&& span.display_start.column <= column < span.display_start.column + span.len
}

/// The cell of a physical row that a cell of a view shows, by `origins`.
pub open spec fn origin_at(origins: Seq<OriginSpan>, row: int, column: int) -> Option<RawCellAnchor>
    decreases origins.len(),
{
    if origins.len() == 0 {
        None
    } else if span_covers(origins.last(), row, column) {
        let span = origins.last();
        Some(
            RawCellAnchor {
                row_id: span.raw_start.row_id,
                column: capped_sum(
                    span.raw_start.column,
                    column - span.display_start.column,
                ),
            },
        )
    } else {
        origin_at(origins.drop_last(), row, column)
    }
}

/// Whether a span holds a cell of a physical row.
pub open spec fn span_holds(span: OriginSpan, anchor: RawCellAnchor) -> bool {
    &&& span.raw_start.row_id == anchor.row_id
    &&& span.raw_start.column <= anchor.column < span.raw_start.column + span.len
}

/// The cell of a view that shows a cell of a physical row, by `origins`.
pub open spec fn display_of(origins: Seq<OriginSpan>, anchor: RawCellAnchor) -> Option<DisplayPoint>
    decreases origins.len(),
{
    if origins.len() == 0 {
        None
    } else if span_holds(origins.last(), anchor) {
        let span = origins.last();
        Some(
            DisplayPoint {
                row: span.display_start.row,
                column: capped_sum(
                    span.display_start.column,
                    anchor.column - span.raw_start.column,
                ),
            },
        )
    } else {
        display_of(origins.drop_last(), anchor)
    }
}

/// Spans that hold different cells of physical rows, none of them beyond the
/// end of `usize`.
pub open spec fn raw_disjoint(origins: Seq<OriginSpan>) -> bool {
    &&& forall|i: int, j: int, anchor: RawCellAnchor|
        0 <= i < j < origins.len() && #[trigger] span_holds(origins[i], anchor) ==> !(
        #[trigger] span_holds(origins[j], anchor))
    &&& forall|i: int|
        0 <= i < origins.len() ==> (#[trigger] origins[i]).raw_start.column + origins[i].len
            <= usize::MAX && origins[i].display_start.column + origins[i].len <= usize::MAX
}

/// A cell of a view comes from a cell of a physical row just where that cell is
/// shown there: looking up one and then the other leads back.
pub proof fn origins_round_trip(
    origins: Seq<OriginSpan>,
    height: int,
    cols: int,
    row: usize,
    column: usize,
    anchor: RawCellAnchor,
)
    requires
        exact_origins(origins, height, cols),
    ensures
        origin_at(origins, row as int, column as int) == Some(anchor) <==> display_of(
            origins,
            anchor,
        ) == Some(DisplayPoint { row, column }),
{
}

/// Records where one more cell of a view comes from. Consecutive cells share
/// one span.
pub fn append_projected_origin(
    origins: &mut Vec<OriginSpan>,
    row: usize,
    column: usize,
    anchor: RawCellAnchor,
)
    ensures
        forall|r: int, c: int| #[trigger]
            origin_at(final(origins)@, r, c) == if r == row && c == column {
                Some(anchor)
            } else {
                origin_at(old(origins)@, r, c)
            },
        forall|height: int, cols: int|
            spans_in_order(old(origins)@, height, cols) && spans_end(
                old(origins)@,
                row as int,
                column as int,
            ) && row < height && column < cols && anchor.row_id.spec_is_tracked() && anchor.column
                < usize::MAX ==> #[trigger] spans_in_order(final(origins)@, height, cols),
        spans_end(old(origins)@, row as int, column as int) ==> spans_end(
            final(origins)@,
            row as int,
            column + 1,
        ),
{
    let ghost before = origins@;
    let count: usize = origins.len();
    if count > 0 {
        let last = origins[count - 1];
        let continues = last.display_start.row == row && last.raw_start.row_id == anchor.row_id
            && last.len < usize::MAX && match (
            last.display_start.column.checked_add(last.len),
            last.raw_start.column.checked_add(last.len),
        ) {
            (Some(display), Some(raw)) => display == column && raw == anchor.column,
            _ => false,
        };
        if continues {
            origins.pop();
            let ghost head = origins@;
            assert(head =~= before.drop_last());
            let longer = OriginSpan { len: last.len + 1, ..last };
            origins.push(longer);
            assert(origins@.drop_last() =~= head);
            assert(before.last() == last);
            assert forall|r: int, c: int| #[trigger] origin_at(origins@, r, c) == if r == row && c
                == column {
                Some(anchor)
            } else {
                origin_at(before, r, c)
            } by {}
            assert forall|height: int, cols: int|
                spans_in_order(before, height, cols) && row < height && column < cols
                    && anchor.row_id.spec_is_tracked() && anchor.column
                    < usize::MAX implies #[trigger] spans_in_order(origins@, height, cols) by {
                assert(before =~= head.push(last));
                lemma_span_extended(head, last, longer, height, cols);
            }
            proof {
                if spans_end(before, row as int, column as int) {
                    lemma_spans_end(before, head, longer, row as int, column as int);
                }
            }
            return;
        }
    }
    let span = OriginSpan {
        display_start: DisplayPoint { row, column },
        raw_start: anchor,
        len: 1,
    };
    origins.push(span);
    assert(origins@.drop_last() =~= before);
    assert(origins@.last() == span);
    assert forall|r: int, c: int| #[trigger] origin_at(origins@, r, c) == if r == row && c == column {
        Some(anchor)
    } else {
        origin_at(before, r, c)
    } by {}
    assert forall|height: int, cols: int|
        spans_in_order(before, height, cols) && spans_end(before, row as int, column as int) && row
            < height && column < cols && anchor.row_id.spec_is_tracked() && anchor.column
            < usize::MAX implies #[trigger] spans_in_order(origins@, height, cols) by {
        assert(span_fits(span, height, cols));
        lemma_span_begun(before, span, height, cols);
    }
    proof {
        if spans_end(before, row as int, column as int) {
            lemma_spans_end(before, before, span, row as int, column as int);
        }
    }
}

/// As many places as cells.
proof fn lemma_places_len(lines: Seq<Line>, from: int, to: int)
    ensures
        places(lines, from, to).len() == joined(lines, from, to).len(),
    decreases to - from,
{
    if from < to {
        lemma_places_len(lines, from, to - 1);
        lemma_content_len_bounds(lines[to - 1].cells);
    }
}

/// As many origins as reflowed rows.
proof fn lemma_reflowed_places_len(lines: Seq<Line>, from: int, end: int, cols: int)
    ensures
        forall|blank: TerminalCell|
            reflowed_places(lines, from, end, cols).len() == (#[trigger] reflowed(
                lines,
                from,
                end,
                cols,
                blank,
            )).len(),
    decreases end - from,
{
    if from < end {
        let next = logical_end(lines, from, end);
        if from < next <= end {
            lemma_reflowed_places_len(lines, next, end, cols);
            lemma_places_len(lines, from, next);
            assert forall|blank: TerminalCell|
                reflowed_places(lines, from, end, cols).len() == (#[trigger] reflowed(
                    lines,
                    from,
                    end,
                    cols,
                    blank,
                )).len() by {
                assert(reflowed(lines, next, end, cols, blank).len() == reflowed_places(
                    lines,
                    next,
                    end,
                    cols,
                ).len());
            }
        }
    }
}

/// Collects the places of a logical line.
fn collect_places(lines: &VecDeque<ScrollbackLine>, from: usize, to: usize) -> (all: Vec<Place>)
    requires
        from <= to <= lines@.len(),
    ensures
        all@ == places(history_lines(lines@), from as int, to as int),
        forall|i: int| 0 <= i < all@.len() ==> (#[trigger] all@[i]).row < to
            && all@[i].column < usize::MAX,
{
    let ghost source = history_lines(lines@);
    let mut all: Vec<Place> = Vec::new();
    let mut r: usize = from;
    while r < to
        invariant
            from <= r <= to <= lines@.len(),
            source == history_lines(lines@),
            all@ == places(source, from as int, r as int),
            forall|i: int| 0 <= i < all@.len() ==> (#[trigger] all@[i]).row < to
            && all@[i].column < usize::MAX,
        decreases to - r,
    {
        let line = &lines[r];
        assert(source[r as int] == line@);
        let kept: usize = line.reflow_content_len();
        let ghost before = all@;
        let ghost own = Seq::new(
            kept as nat,
            |c: int| Place { row: r, column: c as usize },
        );
        let mut c: usize = 0;
        assert(before + own.take(0) =~= before);
        while c < kept
            invariant
                c <= kept,
                r < to,
                own == Seq::new(kept as nat, |c: int| Place { row: r, column: c as usize }),
                all@ == before + own.take(c as int),
                forall|i: int| 0 <= i < all@.len() ==> (#[trigger] all@[i]).row < to
            && all@[i].column < usize::MAX,
            decreases kept - c,
        {
            all.push(Place { row: r, column: c });
            c = c + 1;
            assert(all@ =~= before + own.take(c as int));
        }
        assert(own.take(c as int) =~= own);
        r = r + 1;
        assert(all@ =~= places(source, from as int, r as int));
    }
    all
}

/// What `origins` and `sources` say of the first rows of a view.
pub open spec fn describes(
    state: TerminalState,
    rows: Seq<RowPlaces>,
    origins: Seq<OriginSpan>,
    sources: Seq<Option<RawRowSource>>,
) -> bool {
    &&& sources.len() == rows.len()
    &&& forall|r: int|
        0 <= r < rows.len() ==> #[trigger] sources[r] == source_at(state, rows[r].owner)
    &&& forall|r: int, c: int| #[trigger]
        origin_at(origins, r, c) == if 0 <= r < rows.len() && 0 <= c < rows[r].cells.len() {
            anchor_at(state, rows[r].cells[c])
        } else {
            None
        }
    &&& spans_in_order(origins, rows.len() as int, state.cols())
}

impl TerminalState {
    /// Identity of a retained row.
    fn id_at(&self, row: usize) -> (id: RawRowId)
        requires
            self.core_wf(),
            row < self.document().len(),
        ensures
            id == self.document()[row as int].id,
    {
        let history: usize = self.scrollback.len();
        if row < history {
            let line = &self.scrollback[row];
            assert(self.document()[row as int] == line@);
            line.row_id
        } else {
            assert(self.document()[row as int] == self.grid@[row - history]);
            self.grid.row_id(row - history)
        }
    }

    /// Records where the next row of a view comes from.
    fn append_view_row(
        &self,
        origins: &mut Vec<OriginSpan>,
        sources: &mut Vec<Option<RawRowSource>>,
        owner: usize,
        cells: &Vec<Place>,
        Ghost(rows): Ghost<Seq<RowPlaces>>,
        Ghost(row): Ghost<RowPlaces>,
    )
        requires
            self.core_wf(),
            owner < self.document().len(),
            describes(*self, rows, old(origins)@, old(sources)@),
            row.owner == Some(owner),
            cells@.len() <= row.cells.len(),
            forall|c: int|
                0 <= c < row.cells.len() ==> #[trigger] row.cells[c] == if c < cells@.len() {
                    Some(cells@[c])
                } else {
                    None
                },
            row.cells.len() <= self.cols(),
            forall|c: int|
                0 <= c < cells@.len() ==> (#[trigger] cells@[c]).row < self.document().len()
                    && cells@[c].column < usize::MAX,
        ensures
            describes(*self, rows.push(row), final(origins)@, final(sources)@),
    {
        let index: usize = sources.len();
        let ghost all = rows.push(row);
        let mut c: usize = 0;
        proof {
            lemma_next_row(origins@, index as int, self.cols());
        }
        while c < cells.len()
            invariant
                self.core_wf(),
                row.cells.len() <= self.cols(),
                spans_in_order(origins@, index + 1, self.cols()),
                spans_end(origins@, index as int, c as int),
                c <= cells@.len() <= row.cells.len(),
                index == rows.len(),
                all == rows.push(row),
                forall|i: int|
                    0 <= i < row.cells.len() ==> #[trigger] row.cells[i] == if i < cells@.len() {
                        Some(cells@[i])
                    } else {
                        None
                    },
                forall|i: int|
                    0 <= i < cells@.len() ==> (#[trigger] cells@[i]).row < self.document().len()
                        && cells@[i].column < usize::MAX,
                forall|r: int, i: int| #[trigger]
                    origin_at(origins@, r, i) == if 0 <= r < rows.len() && 0 <= i
                        < rows[r].cells.len() {
                        anchor_at(*self, rows[r].cells[i])
                    } else if r == index && 0 <= i < c {
                        anchor_at(*self, row.cells[i])
                    } else {
                        None
                    },
            decreases cells.len() - c,
        {
            let place = cells[c];
            let id = self.id_at(place.row);
            proof {
                lemma_next_column(origins@, index as int, c as int);
            }
            if id.is_tracked() {
                append_projected_origin(
                    origins,
                    index,
                    c,
                    RawCellAnchor { row_id: id, column: place.column },
                );
            }
            c = c + 1;
        }
        sources.push(
            Some(RawRowSource { raw_row: self.id_at(owner), raw_absolute_row: owner }),
        );
    }
}

/// The places of the `k`-th row of a logical line.
fn places_of_chunk(all: &Vec<Place>, k: usize, cols: usize, from: usize) -> (chunk: (
    usize,
    Vec<Place>,
))
    requires
        cols > 0,
        k < chunk_count(all@.len() as int, cols as int),
        forall|i: int| 0 <= i < all@.len() ==> (#[trigger] all@[i]).row < usize::MAX,
    ensures
        ({
            let row = chunk_places(all@, from as int, k as int, cols as int);
            &&& row.owner == Some(chunk.0)
            &&& chunk.1@.len() <= cols
            &&& forall|c: int|
                0 <= c < cols ==> #[trigger] row.cells[c] == if c < chunk.1@.len() {
                    Some(chunk.1@[c])
                } else {
                    None
                }
            &&& forall|c: int| 0 <= c < chunk.1@.len() ==> all@.contains(#[trigger] chunk.1@[c])
            &&& chunk.0 == from || exists|i: int|
                0 <= i < all@.len() && (#[trigger] all@[i]).row == chunk.0
        }),
{
    let total: usize = all.len();
    proof {
        lemma_chunk_start(total as int, k as int, cols as int);
    }
    let start: usize = k * cols;
    let mut cells: Vec<Place> = Vec::new();
    while cells.len() < cols && cells.len() < total - start
        invariant
            total == all@.len(),
            start <= total,
            cells@.len() <= cols,
            cells@.len() <= total - start,
            forall|c: int| 0 <= c < cells@.len() ==> #[trigger] cells@[c] == all@[start + c],
        decreases cols - cells.len(),
    {
        let place = all[start + cells.len()];
        cells.push(place);
    }
    let owner: usize = if start < total {
        all[start].row
    } else {
        from
    };
    assert forall|c: int| 0 <= c < cells@.len() implies all@.contains(#[trigger] cells@[c]) by {
        assert(all@[start + c] == cells@[c]);
    }
    (owner, cells)
}

impl TerminalState {
    /// Records where the visible rows of reflowed history come from.
    fn append_history_rows(
        &self,
        start: usize,
        origins: &mut Vec<OriginSpan>,
        sources: &mut Vec<Option<RawRowSource>>,
    )
        requires
            self.core_wf(),
            start <= self.scrollback@.len(),
            old(origins)@.len() == 0,
            old(sources)@.len() == 0,
        ensures
            describes(
                *self,
                window(
                    reflowed_places(
                        self.history(),
                        start as int,
                        self.history().len() as int,
                        self.cols(),
                    ),
                    self.scroll_offset as int,
                    self.rows(),
                ),
                final(origins)@,
                final(sources)@,
            ),
    {
        let lines = &self.scrollback;
        let end: usize = lines.len();
        let cols: usize = self.grid.cols;
        let height: usize = self.grid.rows();
        let offset: usize = self.scroll_offset;
        let ghost all = self.history();
        let ghost full = reflowed_places(all, start as int, end as int, cols as int);
        let total: u128 = count_reflowed(lines, start, end, cols);
        proof {
            lemma_reflowed_places_len(all, start as int, end as int, cols as int);
            let blank = blank_cell(Color::Default);
            assert(total == reflowed(all, start as int, end as int, cols as int, blank).len());
        }
        assert(total == full.len());
        let target_start: u128 = if total < offset as u128 {
            0
        } else {
            total - offset as u128
        };
        let target_end: u128 = if target_start + (height as u128) < total {
            target_start + height as u128
        } else {
            total
        };
        let mut source: usize = start;
        let mut visual_start: u128 = 0;
        assert(full.skip(0) =~= full);
        assert(full.subrange(target_start as int, target_start as int) =~= Seq::empty());
        assert(origins@ =~= Seq::empty());
        proof {
            lemma_no_spans(0, cols as int);
        }
        while source < end && visual_start < target_end
            invariant
                self.core_wf(),
                start <= source <= end,
                lines == &self.scrollback,
                end == lines@.len(),
                cols == self.cols(),
                all == self.history(),
                full == reflowed_places(all, start as int, end as int, cols as int),
                target_start <= target_end <= total == full.len(),
                total <= 0x8000_0000_0000_0000_0000_0000_0000_0000,
                visual_start <= total,
                full.skip(visual_start as int) == reflowed_places(
                    all,
                    source as int,
                    end as int,
                    cols as int,
                ),
                describes(
                    *self,
                    full.subrange(
                        target_start as int,
                        clamped(visual_start as int, target_start as int, target_end as int),
                    ),
                    origins@,
                    sources@,
                ),
            decreases end - source,
        {
            let (next, cells) = reflow_span(lines, source, end);
            let visual: u128 = count_chunks(cells, cols);
            let ghost rest = reflowed_places(all, source as int, end as int, cols as int);
            let ghost logical = places(all, source as int, next as int);
            let ghost tail = reflowed_places(all, next as int, end as int, cols as int);
            proof {
                lemma_places_len(all, source as int, next as int);
            }
            assert(rest == line_places(all, source as int, next as int, cols as int) + tail);
            assert(full.skip(visual_start as int).len() == total - visual_start);
            let visual_end: u128 = visual_start + visual;
            assert(full.skip(visual_end as int) =~= tail) by {
                assert(forall|i: int|
                    0 <= i < tail.len() ==> #[trigger] full.skip(visual_end as int)[i]
                        == full.skip(visual_start as int)[i + visual]);
            }
            if visual_end > target_start {
                let line = collect_places(lines, source, next);
                let line_len: usize = line.len();
                assert(visual <= 1 || visual <= line_len);
                assert forall|i: int| 0 <= i < visual implies #[trigger] full[visual_start + i]
                    == chunk_places(logical, source as int, i, cols as int) by {
                    assert(full.skip(visual_start as int)[i] == full[visual_start + i]);
                    assert(rest[i] == line_places(all, source as int, next as int, cols as int)[i]);
                }
                let first: usize = if visual_start < target_start {
                    (target_start - visual_start) as usize
                } else {
                    0
                };
                let left: u128 = target_end - visual_start;
                let last: usize = if left < visual {
                    left as usize
                } else {
                    visual as usize
                };
                let mut k: usize = first;
                while k < last
                    invariant
                        self.core_wf(),
                        first <= k <= last <= visual || k == first,
                        last <= visual,
                        cols > 0,
                        cols == self.cols(),
                        line@ == logical,
                        next <= self.scrollback@.len(),
                        source < next,
                        forall|i: int| 0 <= i < line@.len() ==> (#[trigger] line@[i]).row < next
                            && line@[i].column < usize::MAX,
                        visual == chunk_count(line@.len() as int, cols as int),
                        visual_start + visual <= full.len(),
                        target_start <= visual_start + first,
                        visual_start + k <= full.len(),
                        forall|i: int|
                            0 <= i < visual ==> #[trigger] full[visual_start + i] == chunk_places(
                                logical,
                                source as int,
                                i,
                                cols as int,
                            ),
                        describes(
                            *self,
                            full.subrange(target_start as int, visual_start + k),
                            origins@,
                            sources@,
                        ),
                    decreases last - k,
                {
                    let (owner, row) = places_of_chunk(&line, k, cols, source);
                    let ghost rows = full.subrange(target_start as int, visual_start + k);
                    let ghost own = full[visual_start + k];
                    assert(own == chunk_places(logical, source as int, k as int, cols as int));
                    self.append_view_row(origins, sources, owner, &row, Ghost(rows), Ghost(own));
                    assert(full.subrange(target_start as int, visual_start + k + 1)
                        =~= rows.push(own));
                    k = k + 1;
                }
            }
            visual_start = visual_end;
            source = next;
        }
        assert(full.len() == visual_start + full.skip(visual_start as int).len());
    }

    /// Records where a row of the screen comes from.
    fn append_screen_row(
        &self,
        r: usize,
        origins: &mut Vec<OriginSpan>,
        sources: &mut Vec<Option<RawRowSource>>,
        Ghost(rows): Ghost<Seq<RowPlaces>>,
    )
        requires
            self.core_wf(),
            r < self.rows(),
            describes(*self, rows, old(origins)@, old(sources)@),
        ensures
            describes(
                *self,
                rows.push(screen_places(*self, r as int)),
                final(origins)@,
                final(sources)@,
            ),
    {
        let owner: usize = self.scrollback.len() + r;
        let cols: usize = self.grid.cols;
        let mut cells: Vec<Place> = Vec::new();
        while cells.len() < cols
            invariant
                cells@.len() <= cols,
                forall|c: int|
                    0 <= c < cells@.len() ==> #[trigger] cells@[c] == (Place {
                        row: owner,
                        column: c as usize,
                    }),
            decreases cols - cells.len(),
        {
            let column: usize = cells.len();
            cells.push(Place { row: owner, column });
        }
        self.append_view_row(
            origins,
            sources,
            owner,
            &cells,
            Ghost(rows),
            Ghost(screen_places(*self, r as int)),
        );
    }

    /// Where the cells and the rows of the view come from.
    pub fn identity_projection_geometry(&self) -> (geometry: (
        Vec<OriginSpan>,
        Vec<Option<RawRowSource>>,
    ))
        requires
            self.core_wf(),
        ensures
            describes(*self, view_places(*self), geometry.0@, geometry.1@),
            exact_origins(geometry.0@, self.rows(), self.cols()),
            geometry.1@.len() == self.rows(),
    {
        let mut origins: Vec<OriginSpan> = Vec::new();
        let mut sources: Vec<Option<RawRowSource>> = Vec::new();
        let height: usize = self.grid.rows();
        let cols: usize = self.grid.cols;
        let ghost target = view_places(*self);
        let ghost screen = Seq::new(self.grid@.len(), |r: int| screen_places(*self, r));
        let ghost mut shown: Seq<RowPlaces> = Seq::empty();
        if self.scroll_offset != 0 {
            let start: usize = self.find_view_beginning();
            self.append_history_rows(start, &mut origins, &mut sources);
            proof {
                shown = window(
                    reflowed_places(
                        self.history(),
                        start as int,
                        self.history().len() as int,
                        self.cols(),
                    ),
                    self.scroll_offset as int,
                    self.rows(),
                );
            }
        }
        proof {
            if self.scroll_offset == 0 {
                assert(origins@ =~= Seq::empty());
                lemma_no_spans(0, cols as int);
            }
        }
        assert(target =~= completed(shown, screen, height as int, no_places(cols as int)));
        let from: usize = sources.len();
        assert(shown =~= target.take(from as int));
        let mut next: usize = 0;
        while sources.len() < height
            invariant
                self.core_wf(),
                height == self.rows(),
                cols == self.cols(),
                shown.len() == from <= height,
                sources@.len() == from + next,
                sources@.len() <= height,
                screen == Seq::new(self.grid@.len(), |r: int| screen_places(*self, r)),
                target == completed(shown, screen, height as int, no_places(cols as int)),
                describes(*self, target.take(sources@.len() as int), origins@, sources@),
            decreases height - sources.len(),
        {
            let ghost rows = target.take(sources@.len() as int);
            let ghost index = sources@.len() as int;
            assert(target[index] == screen[next as int]);
            self.append_screen_row(next, &mut origins, &mut sources, Ghost(rows));
            assert(target.take(index + 1) =~= rows.push(target[index]));
            next = next + 1;
        }
        assert(target.take(height as int) =~= target);
        proof {
            lemma_view_maps_once(*self, origins@, sources@);
            lemma_origins_are_exact(origins@, height as int, cols as int);
        }
        (origins, sources)
    }
}

} // verus!
