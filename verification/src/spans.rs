//! Spans of cells that a view shows: each cell of a physical row is shown
//! once, and either end of the way leads back to the other.

use vstd::prelude::*;

use crate::document::RawCellAnchor;
use crate::geometry::display_of;
use crate::geometry::origin_at;
use crate::geometry::raw_disjoint;
use crate::geometry::span_covers;
use crate::geometry::span_holds;
use crate::plan::capped_sum;
use crate::projection::DisplayPoint;
use crate::projection::OriginSpan;

verus! {

/// Whether a span holds cells of a row with an identity and lies in a view of
/// `height` rows of `cols` columns.
pub open spec fn span_fits(span: OriginSpan, height: int, cols: int) -> bool {
    &&& span.len > 0
    &&& span.raw_start.row_id.spec_is_tracked()
    &&& span.raw_start.column + span.len <= usize::MAX
    &&& span.display_start.row < height
    &&& span.display_start.column + span.len <= cols
}

/// Spans that fit a view of `height` rows of `cols` columns, no two of which
/// cover one cell.
pub open spec fn spans_apart(origins: Seq<OriginSpan>, height: int, cols: int) -> bool {
    &&& forall|i: int| 0 <= i < origins.len() ==> span_fits(#[trigger] origins[i], height, cols)
    &&& forall|i: int, j: int, row: int, column: int|
        0 <= i < j < origins.len() && #[trigger] span_covers(origins[i], row, column) ==> !(
        #[trigger] span_covers(origins[j], row, column))
}

/// What the spans of a view of `height` rows of `cols` columns are: each fits,
/// no cell of the view is covered twice, no cell of a physical row is held
/// twice, and looking up a cell one way and then the other leads back to it.
pub open spec fn exact_origins(origins: Seq<OriginSpan>, height: int, cols: int) -> bool {
    &&& spans_apart(origins, height, cols)
    &&& raw_disjoint(origins)
    &&& forall|anchor: RawCellAnchor|
        (#[trigger] display_of(origins, anchor)) matches Some(point) ==> origin_at(
            origins,
            point.row as int,
            point.column as int,
        ) == Some(anchor)
    &&& forall|row: int, column: int|
        (#[trigger] origin_at(origins, row, column)) matches Some(anchor) ==> display_of(
            origins,
            anchor,
        ) == Some(DisplayPoint { row: row as usize, column: column as usize })
}

/// Whether a span ends before a cell of a view, row by row.
pub open spec fn span_before(span: OriginSpan, row: int, column: int) -> bool {
    span.display_start.row < row || (span.display_start.row == row && span.display_start.column
        + span.len <= column)
}

/// Spans that fit a view, in the order of its cells.
#[verifier::opaque]
pub open spec fn spans_in_order(origins: Seq<OriginSpan>, height: int, cols: int) -> bool {
    &&& forall|i: int| 0 <= i < origins.len() ==> span_fits(#[trigger] origins[i], height, cols)
    &&& forall|i: int, j: int|
        0 <= i < j < origins.len() ==> span_before(
            #[trigger] origins[i],
            (#[trigger] origins[j]).display_start.row as int,
            origins[j].display_start.column as int,
        )
}

/// Whether all spans end before a cell of a view.
#[verifier::opaque]
pub open spec fn spans_end(origins: Seq<OriginSpan>, row: int, column: int) -> bool {
    forall|i: int| 0 <= i < origins.len() ==> span_before(#[trigger] origins[i], row, column)
}

/// Whether no two cells of a view come from the same cell.
pub open spec fn maps_once(origins: Seq<OriginSpan>) -> bool {
    forall|r: int, c: int, q: int, k: int|
        (#[trigger] origin_at(origins, r, c)) is Some && origin_at(origins, r, c)
            == #[trigger] origin_at(origins, q, k) ==> r == q && c == k
}

/// Without spans there is nothing out of order.
pub proof fn lemma_no_spans(height: int, cols: int)
    ensures
        spans_in_order(Seq::empty(), height, cols),
{
    reveal(spans_in_order);
}

/// Spans of some rows are spans of more, and end before the next row.
pub proof fn lemma_next_row(origins: Seq<OriginSpan>, height: int, cols: int)
    requires
        spans_in_order(origins, height, cols),
    ensures
        spans_in_order(origins, height + 1, cols),
        spans_end(origins, height, 0),
{
    reveal(spans_in_order);
    reveal(spans_end);
}

/// Spans that end before a cell end before the next.
pub proof fn lemma_next_column(origins: Seq<OriginSpan>, row: int, column: int)
    requires
        spans_end(origins, row, column),
    ensures
        spans_end(origins, row, column + 1),
{
    reveal(spans_end);
}

/// A span in the place of the last, or behind it, is the one to end last.
pub proof fn lemma_spans_end(
    origins: Seq<OriginSpan>,
    head: Seq<OriginSpan>,
    span: OriginSpan,
    row: int,
    column: int,
)
    requires
        spans_end(origins, row, column),
        head == origins || (origins.len() > 0 && head == origins.drop_last()),
        span_before(span, row, column + 1),
    ensures
        spans_end(head.push(span), row, column + 1),
{
    reveal(spans_end);
    let all = head.push(span);
    assert forall|i: int| 0 <= i < all.len() implies span_before(
        #[trigger] all[i],
        row,
        column + 1,
    ) by {
        if i < head.len() {
            assert(all[i] == origins[i]);
        }
    }
}

/// The cell after the last span makes a span of its own.
pub proof fn lemma_span_begun(
    origins: Seq<OriginSpan>,
    span: OriginSpan,
    height: int,
    cols: int,
)
    requires
        spans_in_order(origins, height, cols),
        spans_end(origins, span.display_start.row as int, span.display_start.column as int),
        span_fits(span, height, cols),
    ensures
        spans_in_order(origins.push(span), height, cols),
{
    reveal(spans_in_order);
    reveal(spans_end);
}

/// The cell after the last span extends it.
pub proof fn lemma_span_extended(
    head: Seq<OriginSpan>,
    last: OriginSpan,
    longer: OriginSpan,
    height: int,
    cols: int,
)
    requires
        spans_in_order(head.push(last), height, cols),
        longer.display_start == last.display_start,
        span_fits(longer, height, cols),
    ensures
        spans_in_order(head.push(longer), height, cols),
{
    reveal(spans_in_order);
    let before = head.push(last);
    let after = head.push(longer);
    let n = head.len() as int;
    assert(before[n] == last && after[n] == longer);
    assert forall|i: int| 0 <= i < after.len() implies span_fits(
        #[trigger] after[i],
        height,
        cols,
    ) by {
        if i < n {
            assert(after[i] == before[i]);
        }
    }
    assert forall|i: int, j: int| 0 <= i < j < after.len() implies span_before(
        #[trigger] after[i],
        (#[trigger] after[j]).display_start.row as int,
        after[j].display_start.column as int,
    ) by {
        assert(after[i] == before[i]);
        assert(before[j].display_start == after[j].display_start);
    }
}

/// The cell of a physical row that a span has in a column.
spec fn span_anchor(span: OriginSpan, column: int) -> RawCellAnchor {
    RawCellAnchor {
        row_id: span.raw_start.row_id,
        column: capped_sum(span.raw_start.column, column - span.display_start.column),
    }
}

/// The part before the last span is in order.
proof fn lemma_head_in_order(origins: Seq<OriginSpan>, height: int, cols: int)
    requires
        spans_in_order(origins, height, cols),
        origins.len() > 0,
    ensures
        spans_in_order(origins.drop_last(), height, cols),
{
    reveal(spans_in_order);
    let head = origins.drop_last();
    assert forall|i: int| 0 <= i < head.len() implies #[trigger] head[i] == origins[i] by {}
}

/// A covered cell comes from the span that covers it.
proof fn lemma_origin_by_span(
    origins: Seq<OriginSpan>,
    k: int,
    row: int,
    column: int,
    height: int,
    cols: int,
)
    requires
        spans_in_order(origins, height, cols),
        0 <= k < origins.len(),
        span_covers(origins[k], row, column),
    ensures
        origin_at(origins, row, column) == Some(span_anchor(origins[k], column)),
    decreases origins.len(),
{
    let n = origins.len() - 1;
    if k < n {
        assert(!span_covers(origins[n], row, column)) by {
            reveal(spans_in_order);
            assert(span_before(
                origins[k],
                origins[n].display_start.row as int,
                origins[n].display_start.column as int,
            ));
        }
        lemma_head_in_order(origins, height, cols);
        assert(origins.drop_last()[k] == origins[k]);
        lemma_origin_by_span(origins.drop_last(), k, row, column, height, cols);
    }
}

/// What a cell comes from is held by the span that covers it.
proof fn lemma_covering_span(
    origins: Seq<OriginSpan>,
    row: int,
    column: int,
    height: int,
    cols: int,
) -> (k: int)
    requires
        spans_in_order(origins, height, cols),
        origin_at(origins, row, column) is Some,
    ensures
        0 <= k < origins.len(),
        span_covers(origins[k], row, column),
        span_holds(origins[k], origin_at(origins, row, column)->0),
    decreases origins.len(),
{
    let n = origins.len() - 1;
    if span_covers(origins[n], row, column) {
        assert(span_fits(origins[n], height, cols)) by {
            reveal(spans_in_order);
        }
        n
    } else {
        lemma_head_in_order(origins, height, cols);
        let k = lemma_covering_span(origins.drop_last(), row, column, height, cols);
        assert(origins.drop_last()[k] == origins[k]);
        k
    }
}

/// What is displayed is displayed by a span that holds it.
proof fn lemma_holding_span(origins: Seq<OriginSpan>, anchor: RawCellAnchor) -> (k: int)
    requires
        display_of(origins, anchor) is Some,
    ensures
        0 <= k < origins.len(),
        span_holds(origins[k], anchor),
        display_of(origins, anchor) == Some(
            DisplayPoint {
                row: origins[k].display_start.row,
                column: capped_sum(
                    origins[k].display_start.column,
                    anchor.column - origins[k].raw_start.column,
                ),
            },
        ),
    decreases origins.len(),
{
    let n = origins.len() - 1;
    if span_holds(origins[n], anchor) {
        n
    } else {
        let k = lemma_holding_span(origins.drop_last(), anchor);
        assert(origins.drop_last()[k] == origins[k]);
        k
    }
}

/// What a span holds is displayed.
proof fn lemma_held_is_displayed(origins: Seq<OriginSpan>, k: int, anchor: RawCellAnchor)
    requires
        0 <= k < origins.len(),
        span_holds(origins[k], anchor),
    ensures
        display_of(origins, anchor) is Some,
    decreases origins.len(),
{
    let n = origins.len() - 1;
    if !span_holds(origins[n], anchor) {
        assert(origins.drop_last()[k] == origins[k]);
        lemma_held_is_displayed(origins.drop_last(), k, anchor);
    }
}

/// A span displays what it holds.
proof fn lemma_span_displays(
    origins: Seq<OriginSpan>,
    k: int,
    anchor: RawCellAnchor,
    height: int,
    cols: int,
)
    requires
        spans_in_order(origins, height, cols),
        0 <= k < origins.len(),
        span_holds(origins[k], anchor),
    ensures
        ({
            let column = origins[k].display_start.column + anchor.column
                - origins[k].raw_start.column;
            &&& span_covers(origins[k], origins[k].display_start.row as int, column)
            &&& origin_at(origins, origins[k].display_start.row as int, column) == Some(anchor)
        }),
{
    let column = origins[k].display_start.column + anchor.column - origins[k].raw_start.column;
    assert(span_covers(origins[k], origins[k].display_start.row as int, column));
    lemma_origin_by_span(
        origins,
        k,
        origins[k].display_start.row as int,
        column,
        height,
        cols,
    );
    assert(span_anchor(origins[k], column) == anchor);
}

/// Spans in order cover no cell twice.
pub proof fn lemma_spans_apart(origins: Seq<OriginSpan>, height: int, cols: int)
    requires
        spans_in_order(origins, height, cols),
    ensures
        spans_apart(origins, height, cols),
{
    reveal(spans_in_order);
    assert forall|i: int, j: int, row: int, column: int|
        0 <= i < j < origins.len() && #[trigger] span_covers(origins[i], row, column) implies !(
    #[trigger] span_covers(origins[j], row, column)) by {
        assert(span_before(
            origins[i],
            origins[j].display_start.row as int,
            origins[j].display_start.column as int,
        ));
    }
}

/// Spans in order that show no cell twice lead back and forth.
pub proof fn lemma_origins_are_exact(origins: Seq<OriginSpan>, height: int, cols: int)
    requires
        spans_in_order(origins, height, cols),
        maps_once(origins),
        cols <= usize::MAX,
    ensures
        exact_origins(origins, height, cols),
{
    lemma_spans_apart(origins, height, cols);
    assert forall|i: int, j: int, anchor: RawCellAnchor|
        0 <= i < j < origins.len() && #[trigger] span_holds(origins[i], anchor) implies !(
    #[trigger] span_holds(origins[j], anchor)) by {
        if span_holds(origins[j], anchor) {
            lemma_span_displays(origins, i, anchor, height, cols);
            lemma_span_displays(origins, j, anchor, height, cols);
            let a = origins[i];
            let b = origins[j];
            assert(span_before(a, b.display_start.row as int, b.display_start.column as int)) by {
                reveal(spans_in_order);
            }
            let ca = a.display_start.column + anchor.column - a.raw_start.column;
            let cb = b.display_start.column + anchor.column - b.raw_start.column;
            assert(origin_at(origins, a.display_start.row as int, ca) == origin_at(
                origins,
                b.display_start.row as int,
                cb,
            ));
        }
    }
    assert forall|anchor: RawCellAnchor|
        (#[trigger] display_of(origins, anchor)) is Some implies origin_at(
        origins,
        display_of(origins, anchor)->0.row as int,
        display_of(origins, anchor)->0.column as int,
    ) == Some(anchor) by {
        let k = lemma_holding_span(origins, anchor);
        assert(span_fits(origins[k], height, cols));
        lemma_span_displays(origins, k, anchor, height, cols);
    }
    assert forall|row: int, column: int|
        (#[trigger] origin_at(origins, row, column)) is Some implies display_of(
        origins,
        origin_at(origins, row, column)->0,
    ) == Some(DisplayPoint { row: row as usize, column: column as usize }) by {
        let k = lemma_covering_span(origins, row, column, height, cols);
        let anchor = origin_at(origins, row, column)->0;
        lemma_held_is_displayed(origins, k, anchor);
        let point = display_of(origins, anchor)->0;
        assert(origin_at(origins, point.row as int, point.column as int) == Some(anchor));
    }
}

} // verus!
