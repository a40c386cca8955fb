//! Each folded output has one summary, where the output would be.

use vstd::prelude::*;

use crate::collapses::alone;
use crate::collapses::candidate;
use crate::collapses::candidates;
use crate::collapses::candidates_are_in_order;
use crate::collapses::ends_before;
use crate::collapses::folded_outputs_are_disjoint;
use crate::collapses::lemma_slot;
use crate::collapses::resolved;
use crate::collapses::slot_for;
use crate::document::RawCellAnchor;
use crate::fold_laws::folding_hides_outputs_alone;
use crate::fold_laws::lemma_countable;
use crate::fold_laws::lemma_first_hidden;
use crate::fold_laws::lemma_first_touched;
use crate::fold_laws::lemma_hidden_end;
use crate::fold_laws::lemma_part;
use crate::fold_laws::lemma_touched_end;
use crate::fold_laws::lemma_touched_mark;
use crate::fold_laws::lower_part;
use crate::fold_laws::upper_part;
use crate::folding::all_folded;
use crate::folding::effective;
use crate::folding::first_cell;
use crate::folding::first_hidden;
use crate::folding::first_touched;
use crate::folding::folded;
use crate::folding::hidden_end;
use crate::folding::is_hidden;
use crate::folding::kept;
use crate::folding::part;
use crate::folding::summary_row;
use crate::folding::touched_end;
use crate::folding::touches;
use crate::line_order::cells_are_raw;
use crate::line_order::documents_are_in_order;
use crate::line_order::have_width;
use crate::line_order::in_line_order;
use crate::line_order::lemma_first_cell;
use crate::line_order::lies_within;
use crate::line_order::marks;
use crate::line_order::marks_at;
use crate::line_order::place_before;
use crate::locating::located;
use crate::lookup::holding;
use crate::lookup::is_summary_of;
use crate::lookup::summary_for;
use crate::lookup::summary_position;
use crate::plan::PlanModel;
use crate::plan::PlanRowModel;
use crate::plan::ResolvedCollapse;
use crate::planning::is_plan_of;
use crate::planning::plain_rows;
use crate::projection::rising;
use crate::projection::ProjectedBufferAnchorLocation;
use crate::projection::ProjectedRowKind;
use crate::projection::SyntheticRowKey;
use crate::provenance::BufferAnchor;
use crate::state::TerminalState;

verus! {

/// Outputs that lie apart, in document order, with numbers of their own.
pub open spec fn lie_apart(collapses: Seq<ResolvedCollapse>) -> bool {
    &&& forall|i: int, j: int|
        0 <= i < j < collapses.len() ==> ends_before(
            #[trigger] collapses[i],
            #[trigger] collapses[j],
        )
    &&& forall|i: int, j: int|
        0 <= i < j < collapses.len() ==> (#[trigger] collapses[i]).range.zone_id != (
        #[trigger] collapses[j]).range.zone_id
}

/// Whether folding the output `k` folds anything.
pub open spec fn folds(
    rows: Seq<PlanRowModel>,
    collapses: Seq<ResolvedCollapse>,
    k: int,
    policy_revision: u64,
    cols: int,
) -> bool {
    let before = all_folded(rows, collapses, k, policy_revision, cols);
    first_touched(collapses[k], before, 0) < before.len()
}

/// Whether a row is the summary that a given choice of outputs gives an
/// output.
pub open spec fn summarizes(
    row: PlanRowModel,
    collapse: ResolvedCollapse,
    policy_revision: u64,
) -> bool {
    row.kind matches ProjectedRowKind::CollapsedSummary { key, hidden_range, .. } && key == (
    SyntheticRowKey { zone_id: collapse.range.zone_id, policy_revision }) && hidden_range
        == collapse.range
}

/// Whether all that stands before row `s` comes before the end of an output.
spec fn precedes_end(rows: Seq<PlanRowModel>, s: int, collapse: ResolvedCollapse) -> bool {
    forall|i: int, p: (u64, usize)|
        0 <= i < s && #[trigger] marks(rows[i], p) ==> place_before(
            p,
            (collapse.end_line, collapse.range.end.col),
        )
}

/// Whether row `s` is the summary of output `k`, in its place.
spec fn in_place(
    all: Seq<PlanRowModel>,
    collapses: Seq<ResolvedCollapse>,
    k: int,
    policy_revision: u64,
    s: int,
) -> bool {
    &&& 0 <= s < all.len()
    &&& summarizes(all[s], collapses[k], policy_revision)
    &&& precedes_end(all, s, collapses[k])
}

/// Whether row `s` is the summary of one of the first `n` outputs that fold
/// anything, in its place.
spec fn belongs(
    rows: Seq<PlanRowModel>,
    all: Seq<PlanRowModel>,
    collapses: Seq<ResolvedCollapse>,
    n: int,
    policy_revision: u64,
    cols: int,
    s: int,
) -> bool {
    exists|k: int|
        0 <= k < n && folds(rows, collapses, k, policy_revision, cols) && #[trigger] in_place(
            all,
            collapses,
            k,
            policy_revision,
            s,
        )
}

/// Whether the first `n` outputs that fold anything have their summaries in
/// `all`, one each.
spec fn summaries_in_place(
    rows: Seq<PlanRowModel>,
    all: Seq<PlanRowModel>,
    collapses: Seq<ResolvedCollapse>,
    n: int,
    policy_revision: u64,
    cols: int,
) -> bool {
    &&& forall|s: int|
        0 <= s < all.len() && !((#[trigger] all[s]).kind is Raw) ==> belongs(
            rows,
            all,
            collapses,
            n,
            policy_revision,
            cols,
            s,
        )
    &&& forall|k: int|
        0 <= k < n && #[trigger] folds(rows, collapses, k, policy_revision, cols) ==> exists|s: int|
            #[trigger] in_place(all, collapses, k, policy_revision, s)
    &&& forall|k: int, s: int, t: int|
        0 <= k < n && #[trigger] in_place(all, collapses, k, policy_revision, s)
            && #[trigger] in_place(all, collapses, k, policy_revision, t) ==> s == t
}

/// Two rows that stand for the same.
spec fn alike(a: PlanRowModel, b: PlanRowModel) -> bool {
    a.cells == b.cells && a.kind == b.kind && a.source == b.source
}

/// The parts of a document in which an output has been folded.
proof fn lemma_parts(
    rows: Seq<PlanRowModel>,
    collapse: ResolvedCollapse,
    policy_revision: u64,
    cols: int,
)
    requires
        have_width(rows, cols),
        first_touched(collapse, rows, 0) < rows.len(),
    ensures
        ({
            let f = first_touched(collapse, rows, 0);
            let e = touched_end(collapse, rows, rows.len() as int);
            let all = folded(rows, collapse, policy_revision, cols);
            let u = upper_part(rows, collapse).len();
            &&& 0 <= f < e <= rows.len()
            &&& touches(collapse, rows[f])
            &&& f <= u <= f + 1
            &&& u < all.len()
            &&& forall|i: int| 0 <= i < f ==> alike(#[trigger] all[i], rows[i])
            &&& u == f + 1 ==> all[f].kind is Raw && all[f].cells == kept(
                rows[f].cells,
                0,
                first_hidden(collapse, rows[f].cells, 0),
            )
            &&& all[u as int] == summary_row(collapse, policy_revision, e - f, cols)
            &&& forall|i: int|
                u < i < all.len() ==> (#[trigger] all[i]).kind is Raw || exists|r: int|
                    e <= r < rows.len() && all[i] == #[trigger] rows[r]
        }),
{
    let f = first_touched(collapse, rows, 0);
    let e = touched_end(collapse, rows, rows.len() as int);
    let all = folded(rows, collapse, policy_revision, cols);
    lemma_first_touched(collapse, rows, 0);
    lemma_touched_end(collapse, rows, rows.len() as int);
    if e <= f {
        assert(!touches(collapse, rows[f]));
    }
    assert(rows[f].cells.len() == cols && rows[e - 1].cells.len() == cols);
    let fh = first_hidden(collapse, rows[f].cells, 0);
    let he = hidden_end(collapse, rows[e - 1].cells, cols);
    lemma_first_hidden(collapse, rows[f].cells, 0);
    lemma_hidden_end(collapse, rows[e - 1].cells, cols);
    lemma_part(collapse, rows[f], 0, fh, false);
    lemma_part(collapse, rows[e - 1], he, cols, rows[e - 1].wrapped);
    let before = part(rows[f], 0, fh, false);
    let behind = part(rows[e - 1], he, cols, rows[e - 1].wrapped);
    let head = rows.take(f) + before;
    let upper = upper_part(rows, collapse);
    let lower = lower_part(rows, collapse, cols);
    let summary = summary_row(collapse, policy_revision, e - f, cols);
    assert(all == upper + seq![summary] + lower);
    assert forall|i: int| 0 <= i < f implies alike(#[trigger] all[i], rows[i]) by {
        assert(all[i] == upper[i]);
        assert(alike(upper[i], head[i]));
        assert(head[i] == rows[i]);
    }
    let u = upper.len() as int;
    if u == f + 1 {
        assert(all[f] == upper[f]);
        assert(alike(upper[f], head[f]));
        assert(head[f] == before[0]);
    }
    assert(all[u] == summary);
    assert forall|i: int| u < i < all.len() implies (#[trigger] all[i]).kind is Raw || exists|
        r: int,
    | e <= r < rows.len() && all[i] == #[trigger] rows[r] by {
        let k = i - u - 1;
        assert(all[i] == lower[k]);
        if k < behind.len() {
            assert(lower[k] == behind[k]);
        } else {
            assert(lower[k] == rows[e + (k - behind.len())]);
        }
    }
}

/// Rows that stand for the same mark the same.
proof fn lemma_alike_marks(a: PlanRowModel, b: PlanRowModel, p: (u64, usize))
    requires
        alike(a, b),
        marks(a, p),
    ensures
        marks(b, p),
{
}

/// What stands before a new summary comes before the end of its output.
proof fn lemma_new_summary(
    rows: Seq<PlanRowModel>,
    collapse: ResolvedCollapse,
    policy_revision: u64,
    cols: int,
)
    requires
        have_width(rows, cols),
        cells_are_raw(rows),
        in_line_order(rows),
        first_touched(collapse, rows, 0) < rows.len(),
    ensures
        precedes_end(
            folded(rows, collapse, policy_revision, cols),
            upper_part(rows, collapse).len() as int,
            collapse,
        ),
{
    let f = first_touched(collapse, rows, 0);
    let all = folded(rows, collapse, policy_revision, cols);
    let u = upper_part(rows, collapse).len() as int;
    lemma_parts(rows, collapse, policy_revision, cols);
    let hidden = lemma_touched_mark(collapse, rows[f]);
    assert forall|i: int, p: (u64, usize)|
        0 <= i < u && #[trigger] marks(all[i], p) implies place_before(
        p,
        (collapse.end_line, collapse.range.end.col),
    ) by {
        if i < f {
            assert(alike(all[i], rows[i]));
            lemma_alike_marks(all[i], rows[i], p);
            assert(marks(rows[f], hidden));
            assert(place_before(p, hidden));
        } else {
            let fh = first_hidden(collapse, rows[f].cells, 0);
            lemma_first_hidden(collapse, rows[f].cells, 0);
            lemma_first_cell(all[f].cells, 0);
            lemma_first_cell(rows[f].cells, 0);
            assert(rows[f].cells.len() == cols);
            if first_cell(all[f].cells, 0) is Some {
                let j = choose|j: int| #[trigger] marks_at(all[f].cells, j, p);
                assert(j < fh);
                assert(rows[f].cells[j] is Some);
                let cell = rows[f].cells[fh]->0;
                assert(marks_at(rows[f].cells, j, p));
                assert(marks_at(rows[f].cells, fh, (cell.line, cell.column)));
                assert(place_before(p, (cell.line, cell.column)));
            } else {
                lemma_part(collapse, rows[f], 0, fh, false);
            }
        }
    }
}

/// Earlier summaries stand before the next output.
proof fn lemma_summaries_before(
    rows: Seq<PlanRowModel>,
    before: Seq<PlanRowModel>,
    collapses: Seq<ResolvedCollapse>,
    n: int,
    policy_revision: u64,
    cols: int,
    s: int,
)
    requires
        lie_apart(collapses),
        0 <= n < collapses.len(),
        have_width(before, cols),
        0 <= s < before.len(),
        !(before[s].kind is Raw),
        belongs(rows, before, collapses, n, policy_revision, cols, s),
        first_touched(collapses[n], before, 0) < before.len(),
    ensures
        s < first_touched(collapses[n], before, 0),
{
    let f = first_touched(collapses[n], before, 0);
    lemma_first_touched(collapses[n], before, 0);
    let k = choose|k: int|
        0 <= k < n && folds(rows, collapses, k, policy_revision, cols) && #[trigger] in_place(
            before,
            collapses,
            k,
            policy_revision,
            s,
        );
    if f <= s {
        assert(f != s);
        let hidden = lemma_touched_mark(collapses[n], before[f]);
        assert(marks(before[f], hidden));
        assert(ends_before(collapses[k], collapses[n]));
    }
}

/// A summary stays the summary of its output, in its place, when a later
/// output is folded.
proof fn lemma_in_place_stays(
    before: Seq<PlanRowModel>,
    collapses: Seq<ResolvedCollapse>,
    k: int,
    n: int,
    policy_revision: u64,
    cols: int,
    s: int,
)
    requires
        0 <= k < n < collapses.len(),
        have_width(before, cols),
        first_touched(collapses[n], before, 0) < before.len(),
        0 <= s < first_touched(collapses[n], before, 0),
    ensures
        in_place(before, collapses, k, policy_revision, s) <==> in_place(
            folded(before, collapses[n], policy_revision, cols),
            collapses,
            k,
            policy_revision,
            s,
        ),
{
    let all = folded(before, collapses[n], policy_revision, cols);
    let f = first_touched(collapses[n], before, 0);
    lemma_parts(before, collapses[n], policy_revision, cols);
    assert(alike(all[s], before[s]));
    let c = collapses[k];
    if precedes_end(before, s, c) {
        assert forall|i: int, p: (u64, usize)|
            0 <= i < s && #[trigger] marks(all[i], p) implies place_before(
            p,
            (c.end_line, c.range.end.col),
        ) by {
            assert(alike(all[i], before[i]));
            lemma_alike_marks(all[i], before[i], p);
        }
    }
    if precedes_end(all, s, c) {
        assert forall|i: int, p: (u64, usize)|
            0 <= i < s && #[trigger] marks(before[i], p) implies place_before(
            p,
            (c.end_line, c.range.end.col),
        ) by {
            assert(alike(all[i], before[i]));
            lemma_alike_marks(before[i], all[i], p);
        }
    }
}

/// Folding the next output keeps the summaries in place and adds one.
proof fn lemma_next_summary(
    rows: Seq<PlanRowModel>,
    collapses: Seq<ResolvedCollapse>,
    n: int,
    policy_revision: u64,
    cols: int,
)
    requires
        lie_apart(collapses),
        0 <= n < collapses.len(),
        have_width(all_folded(rows, collapses, n, policy_revision, cols), cols),
        cells_are_raw(all_folded(rows, collapses, n, policy_revision, cols)),
        in_line_order(all_folded(rows, collapses, n, policy_revision, cols)),
        folds(rows, collapses, n, policy_revision, cols),
        summaries_in_place(
            rows,
            all_folded(rows, collapses, n, policy_revision, cols),
            collapses,
            n,
            policy_revision,
            cols,
        ),
    ensures
        summaries_in_place(
            rows,
            folded(
                all_folded(rows, collapses, n, policy_revision, cols),
                collapses[n],
                policy_revision,
                cols,
            ),
            collapses,
            n + 1,
            policy_revision,
            cols,
        ),
{
    let before = all_folded(rows, collapses, n, policy_revision, cols);
    let c = collapses[n];
    let all = folded(before, c, policy_revision, cols);
    let f = first_touched(c, before, 0);
    let u = upper_part(before, c).len() as int;
    lemma_parts(before, c, policy_revision, cols);
    lemma_new_summary(before, c, policy_revision, cols);
    assert(in_place(all, collapses, n, policy_revision, u));
    // Where the summaries are.
    assert forall|s: int| 0 <= s < all.len() && !((#[trigger] all[s]).kind is Raw) implies s == u
        || (s < f && !(before[s].kind is Raw)) by {
        if s < f {
            assert(alike(all[s], before[s]));
        } else if s > u {
            let e = touched_end(c, before, before.len() as int);
            let r = choose|r: int| e <= r < before.len() && all[s] == #[trigger] before[r];
            assert(belongs(rows, before, collapses, n, policy_revision, cols, r));
            lemma_summaries_before(rows, before, collapses, n, policy_revision, cols, r);
        }
    }
    assert forall|s: int| 0 <= s < all.len() && !((#[trigger] all[s]).kind is Raw) implies belongs(
        rows,
        all,
        collapses,
        n + 1,
        policy_revision,
        cols,
        s,
    ) by {
        if s != u {
            assert(belongs(rows, before, collapses, n, policy_revision, cols, s));
            let k = choose|k: int|
                0 <= k < n && folds(rows, collapses, k, policy_revision, cols)
                    && #[trigger] in_place(before, collapses, k, policy_revision, s);
            lemma_in_place_stays(before, collapses, k, n, policy_revision, cols, s);
            assert(in_place(all, collapses, k, policy_revision, s));
        } else {
            assert(in_place(all, collapses, n, policy_revision, s));
        }
    }
    assert forall|k: int|
        0 <= k < n + 1 && #[trigger] folds(
            rows,
            collapses,
            k,
            policy_revision,
            cols,
        ) implies exists|s: int| #[trigger] in_place(all, collapses, k, policy_revision, s) by {
        if k < n {
            let s = choose|s: int| #[trigger] in_place(before, collapses, k, policy_revision, s);
            assert(belongs(rows, before, collapses, n, policy_revision, cols, s));
            lemma_summaries_before(rows, before, collapses, n, policy_revision, cols, s);
            lemma_in_place_stays(before, collapses, k, n, policy_revision, cols, s);
            assert(in_place(all, collapses, k, policy_revision, s));
        } else {
            assert(in_place(all, collapses, n, policy_revision, u));
        }
    }
    assert forall|k: int, s: int, t: int|
        0 <= k < n + 1 && #[trigger] in_place(all, collapses, k, policy_revision, s)
            && #[trigger] in_place(all, collapses, k, policy_revision, t) implies s == t by {
        lemma_which(all, collapses, k, n, policy_revision, s, u);
        lemma_which(all, collapses, k, n, policy_revision, t, u);
        if k < n {
            assert(s < f && t < f);
            lemma_in_place_stays(before, collapses, k, n, policy_revision, cols, s);
            lemma_in_place_stays(before, collapses, k, n, policy_revision, cols, t);
        } else {
            lemma_not_earlier(rows, before, all, collapses, n, policy_revision, cols, s);
            lemma_not_earlier(rows, before, all, collapses, n, policy_revision, cols, t);
        }
    }
}

/// The summary of another output is another row.
proof fn lemma_which(
    all: Seq<PlanRowModel>,
    collapses: Seq<ResolvedCollapse>,
    k: int,
    n: int,
    policy_revision: u64,
    s: int,
    u: int,
)
    requires
        lie_apart(collapses),
        0 <= k <= n < collapses.len(),
        in_place(all, collapses, k, policy_revision, s),
        in_place(all, collapses, n, policy_revision, u),
    ensures
        k < n ==> s != u,
        !(all[s].kind is Raw),
{
    if k < n {
        assert(collapses[k].range.zone_id != collapses[n].range.zone_id);
    }
}

/// A summary of the output folded last is the new one.
proof fn lemma_not_earlier(
    rows: Seq<PlanRowModel>,
    before: Seq<PlanRowModel>,
    all: Seq<PlanRowModel>,
    collapses: Seq<ResolvedCollapse>,
    n: int,
    policy_revision: u64,
    cols: int,
    s: int,
)
    requires
        lie_apart(collapses),
        0 <= n < collapses.len(),
        have_width(before, cols),
        all == folded(before, collapses[n], policy_revision, cols),
        first_touched(collapses[n], before, 0) < before.len(),
        in_place(all, collapses, n, policy_revision, s),
        s == upper_part(before, collapses[n]).len() || (s < first_touched(
            collapses[n],
            before,
            0,
        ) && !(before[s].kind is Raw)),
        !(before[s].kind is Raw) && s < before.len() ==> belongs(
            rows,
            before,
            collapses,
            n,
            policy_revision,
            cols,
            s,
        ),
    ensures
        s == upper_part(before, collapses[n]).len(),
{
    if s != upper_part(before, collapses[n]).len() {
        lemma_parts(before, collapses[n], policy_revision, cols);
        assert(alike(all[s], before[s]));
        let k = choose|k: int|
            0 <= k < n && folds(rows, collapses, k, policy_revision, cols) && #[trigger] in_place(
                before,
                collapses,
                k,
                policy_revision,
                s,
            );
        assert(collapses[k].range.zone_id != collapses[n].range.zone_id);
    }
}

/// The outputs that fold anything have their summaries, one each and in their
/// places.
proof fn lemma_summaries(
    rows: Seq<PlanRowModel>,
    collapses: Seq<ResolvedCollapse>,
    n: int,
    policy_revision: u64,
    cols: int,
)
    requires
        lie_apart(collapses),
        have_width(rows, cols),
        cells_are_raw(rows),
        in_line_order(rows),
        forall|r: int| 0 <= r < rows.len() ==> (#[trigger] rows[r]).kind is Raw,
        0 <= n <= collapses.len(),
    ensures
        summaries_in_place(
            rows,
            all_folded(rows, collapses, n, policy_revision, cols),
            collapses,
            n,
            policy_revision,
            cols,
        ),
    decreases n,
{
    if n > 0 {
        let before = all_folded(rows, collapses, n - 1, policy_revision, cols);
        lemma_summaries(rows, collapses, n - 1, policy_revision, cols);
        folding_hides_outputs_alone(rows, collapses, n - 1, policy_revision, cols);
        if folds(rows, collapses, n - 1, policy_revision, cols) {
            lemma_next_summary(rows, collapses, n - 1, policy_revision, cols);
        } else {
            let all = all_folded(rows, collapses, n, policy_revision, cols);
            assert(all == before);
            assert forall|s: int|
                0 <= s < all.len() && !((#[trigger] all[s]).kind is Raw) implies belongs(
                rows,
                all,
                collapses,
                n,
                policy_revision,
                cols,
                s,
            ) by {
                assert(belongs(rows, before, collapses, n - 1, policy_revision, cols, s));
                let k = choose|k: int|
                    0 <= k < n - 1 && folds(rows, collapses, k, policy_revision, cols)
                        && #[trigger] in_place(before, collapses, k, policy_revision, s);
                assert(in_place(all, collapses, k, policy_revision, s));
            }
            assert forall|k: int, s: int, t: int|
                0 <= k < n && #[trigger] in_place(all, collapses, k, policy_revision, s)
                    && #[trigger] in_place(all, collapses, k, policy_revision, t) implies s == t by {
                if k == n - 1 {
                    assert(belongs(rows, before, collapses, n - 1, policy_revision, cols, s));
                    let i = choose|i: int|
                        0 <= i < n - 1 && folds(rows, collapses, i, policy_revision, cols)
                            && #[trigger] in_place(before, collapses, i, policy_revision, s);
                    assert(collapses[i].range.zone_id != collapses[n - 1].range.zone_id);
                }
            }
        }
    }
}

/// An output counts as folded exactly where folding it folds anything.
proof fn lemma_effective(
    rows: Seq<PlanRowModel>,
    collapses: Seq<ResolvedCollapse>,
    n: int,
    policy_revision: u64,
    cols: int,
    zone_id: u64,
)
    requires
        0 <= n <= collapses.len(),
    ensures
        effective(rows, collapses, n, policy_revision, cols).contains(zone_id) <==> exists|k: int|
            0 <= k < n && #[trigger] folds(rows, collapses, k, policy_revision, cols)
                && collapses[k].range.zone_id == zone_id,
    decreases n,
{
    if n > 0 {
        lemma_effective(rows, collapses, n - 1, policy_revision, cols, zone_id);
        let earlier = effective(rows, collapses, n - 1, policy_revision, cols);
        let all = effective(rows, collapses, n, policy_revision, cols);
        let last = collapses[n - 1].range.zone_id;
        if folds(rows, collapses, n - 1, policy_revision, cols) {
            assert(all == earlier.insert(last));
        } else {
            assert(all == earlier);
        }
        if earlier.contains(zone_id) {
            let k = choose|k: int|
                0 <= k < n - 1 && #[trigger] folds(rows, collapses, k, policy_revision, cols)
                    && collapses[k].range.zone_id == zone_id;
            assert(folds(rows, collapses, k, policy_revision, cols));
        }
    }
}

/// The first summary of an output is one of its summaries.
proof fn lemma_summary_position(rows: Seq<PlanRowModel>, zone_id: u64, from: int, s: int)
    requires
        0 <= from <= s < rows.len(),
        is_summary_of(rows[s], zone_id),
    ensures
        summary_position(rows, zone_id, from) matches Some(row) && from <= row < rows.len()
            && is_summary_of(rows[row], zone_id),
    decreases s - from,
{
    if !is_summary_of(rows[from], zone_id) {
        lemma_summary_position(rows, zone_id, from + 1, s);
    }
}

/// Each output that a document folds has one summary in it, and there are no
/// others.
pub proof fn folded_outputs_have_one_summary(
    state: TerminalState,
    cols: usize,
    ids: Seq<u64>,
    policy_revision: u64,
    plan: PlanModel,
    zone_id: u64,
)
    requires
        state.core_wf(),
        cols >= 1,
        rising(ids),
        is_plan_of(state, cols, resolved(state, ids), policy_revision, plan),
        state.total_lines_scrolled + state.grid@.len() <= u64::MAX,
    ensures
        plan.effective_collapsed.contains(zone_id) <==> exists|s: int|
            0 <= s < plan.rows.len() && is_summary_of(#[trigger] plan.rows[s], zone_id),
        forall|s: int, t: int|
            0 <= s < plan.rows.len() && 0 <= t < plan.rows.len() && is_summary_of(
                #[trigger] plan.rows[s],
                zone_id,
            ) && is_summary_of(#[trigger] plan.rows[t], zone_id) ==> s == t,
        forall|s: int|
            0 <= s < plan.rows.len() && is_summary_of(#[trigger] plan.rows[s], zone_id)
                ==> plan.rows[s].kind->key.policy_revision == policy_revision,
{
    let collapses = resolved(state, ids);
    let n = collapses.len() as int;
    let rows = plain_rows(state, cols);
    let c = cols as int;
    lemma_resolved_lie_apart(state, ids);
    lemma_plain(state, cols);
    lemma_summaries(rows, collapses, n, policy_revision, c);
    lemma_effective(rows, collapses, n, policy_revision, c, zone_id);
    let all = plan.rows;
    assert(plan.effective_collapsed.to_set().contains(zone_id)
        == plan.effective_collapsed.contains(zone_id));
    if plan.effective_collapsed.contains(zone_id) {
        let k = choose|k: int|
            0 <= k < n && #[trigger] folds(rows, collapses, k, policy_revision, c)
                && collapses[k].range.zone_id == zone_id;
        let s = choose|s: int| #[trigger] in_place(all, collapses, k, policy_revision, s);
        assert(is_summary_of(all[s], zone_id));
    }
    assert forall|s: int| 0 <= s < all.len() && is_summary_of(#[trigger] all[s], zone_id) implies {
        &&& exists|k: int|
            0 <= k < n && #[trigger] folds(rows, collapses, k, policy_revision, c)
                && collapses[k].range.zone_id == zone_id && in_place(
                all,
                collapses,
                k,
                policy_revision,
                s,
            )
        &&& all[s].kind->key.policy_revision == policy_revision
    } by {
        assert(belongs(rows, all, collapses, n, policy_revision, c, s));
    }
    assert forall|s: int, t: int|
        0 <= s < all.len() && 0 <= t < all.len() && is_summary_of(#[trigger] all[s], zone_id)
            && is_summary_of(#[trigger] all[t], zone_id) implies s == t by {
        let k = choose|k: int|
            0 <= k < n && #[trigger] folds(rows, collapses, k, policy_revision, c)
                && collapses[k].range.zone_id == zone_id && in_place(
                all,
                collapses,
                k,
                policy_revision,
                s,
            );
        let l = choose|l: int|
            0 <= l < n && #[trigger] folds(rows, collapses, l, policy_revision, c)
                && collapses[l].range.zone_id == zone_id && in_place(
                all,
                collapses,
                l,
                policy_revision,
                t,
            );
        if k < l {
            assert(collapses[k].range.zone_id != collapses[l].range.zone_id);
        }
        if l < k {
            assert(collapses[l].range.zone_id != collapses[k].range.zone_id);
        }
    }
}

/// A position inside a folded output leads to the summary of that output, and
/// to no row beside it.
pub proof fn hidden_positions_lead_to_their_summary(
    state: TerminalState,
    cols: usize,
    ids: Seq<u64>,
    policy_revision: u64,
    plan: PlanModel,
    anchor: BufferAnchor,
    cell: RawCellAnchor,
    k: int,
)
    requires
        state.core_wf(),
        cols >= 1,
        rising(ids),
        is_plan_of(state, cols, resolved(state, ids), policy_revision, plan),
        state.total_lines_scrolled + state.grid@.len() <= u64::MAX,
        0 <= k < plan.collapses.len(),
        is_hidden(plan.collapses[k], anchor.line_id, anchor.column),
        plan.effective_collapsed.contains(plan.collapses[k].range.zone_id),
    ensures
        located(plan, policy_revision, anchor, cell) == (ProjectedBufferAnchorLocation::Hidden {
            zone_id: plan.collapses[k].range.zone_id,
        }),
{
    let zone_id = plan.collapses[k].range.zone_id;
    lemma_resolved_lie_apart(state, ids);
    lemma_holding(plan.collapses, anchor.line_id, anchor.column, 0, k);
    folded_outputs_have_one_summary(state, cols, ids, policy_revision, plan, zone_id);
    let s = choose|s: int|
        0 <= s < plan.rows.len() && is_summary_of(#[trigger] plan.rows[s], zone_id);
    lemma_summary_position(plan.rows, zone_id, 0, s);
    assert(summary_for(plan, anchor.line_id, anchor.column) == summary_position(
        plan.rows,
        zone_id,
        0,
    ));
}

/// The output that holds a position is found.
proof fn lemma_holding(
    collapses: Seq<ResolvedCollapse>,
    line: u64,
    column: usize,
    from: int,
    k: int,
)
    requires
        lie_apart(collapses),
        0 <= from <= k < collapses.len(),
        is_hidden(collapses[k], line, column),
    ensures
        holding(collapses, line, column, from) == Some(collapses[k].range.zone_id),
    decreases k - from,
{
    if from < k {
        assert(ends_before(collapses[from], collapses[k]));
        lemma_holding(collapses, line, column, from + 1, k);
    }
}

/// The document that folds nothing is in order and has no summaries.
proof fn lemma_plain(state: TerminalState, cols: usize)
    requires
        state.core_wf(),
        cols >= 1,
        state.total_lines_scrolled + state.grid@.len() <= u64::MAX,
    ensures
        have_width(plain_rows(state, cols), cols as int),
        cells_are_raw(plain_rows(state, cols)),
        in_line_order(plain_rows(state, cols)),
        forall|r: int|
            0 <= r < plain_rows(state, cols).len() ==> (#[trigger] plain_rows(
                state,
                cols,
            )[r]).kind is Raw,
{
    let first = state.first_line_id() as u64;
    lemma_countable(state);
    documents_are_in_order(state.history(), state.grid@, first, cols as int);
    let rows = plain_rows(state, cols);
    assert forall|r: int| 0 <= r < rows.len() implies (#[trigger] rows[r]).kind is Raw by {
        assert(lies_within(
            rows[r],
            first as int,
            first + state.history().len() + state.grid@.len(),
        ));
    }
}

/// The retained outputs among the first `n` of `zones` have the numbers of
/// those, each once.
proof fn lemma_candidate_numbers(state: TerminalState, zones: Seq<u64>, n: int)
    requires
        rising(zones),
        0 <= n <= zones.len(),
    ensures
        forall|i: int|
            0 <= i < candidates(state, zones, n).len() ==> zones.take(n).contains(
                (#[trigger] candidates(state, zones, n)[i]).range.zone_id,
            ),
        forall|i: int, j: int|
            0 <= i < j < candidates(state, zones, n).len() ==> (#[trigger] candidates(
                state,
                zones,
                n,
            )[i]).range.zone_id != (#[trigger] candidates(state, zones, n)[j]).range.zone_id,
    decreases n,
{
    if n > 0 {
        lemma_candidate_numbers(state, zones, n - 1);
        candidates_are_in_order(state, zones, n - 1);
        let earlier = candidates(state, zones, n - 1);
        let all = candidates(state, zones, n);
        let here = zones.take(n);
        assert forall|z: u64| #[trigger] zones.take(n - 1).contains(z) implies here.contains(z) && z
            != zones[n - 1] by {
            let i = choose|i: int| 0 <= i < n - 1 && (#[trigger] zones.take(n - 1)[i]) == z;
            assert(here[i] == z);
            assert(zones[i] < zones[n - 1]);
        }
        match candidate(state, zones[n - 1]) {
            Some(item) => {
                let slot = slot_for(earlier, item);
                lemma_slot(earlier, item);
                assert(all == earlier.insert(slot, item));
                assert(here[n - 1] == item.range.zone_id);
                assert forall|i: int| 0 <= i < all.len() implies here.contains(
                    (#[trigger] all[i]).range.zone_id,
                ) by {
                    if i < slot {
                        assert(all[i] == earlier[i]);
                    } else if i > slot {
                        assert(all[i] == earlier[i - 1]);
                    }
                }
                assert forall|i: int, j: int| 0 <= i < j < all.len() implies (
                #[trigger] all[i]).range.zone_id != (#[trigger] all[j]).range.zone_id by {
                    let a = if i < slot {
                        i
                    } else {
                        i - 1
                    };
                    let b = if j < slot {
                        j
                    } else {
                        j - 1
                    };
                    if i != slot {
                        assert(all[i] == earlier[a]);
                        assert(zones.take(n - 1).contains(earlier[a].range.zone_id));
                    }
                    if j != slot {
                        assert(all[j] == earlier[b]);
                        assert(zones.take(n - 1).contains(earlier[b].range.zone_id));
                    }
                }
            },
            None => {
                assert forall|i: int| 0 <= i < all.len() implies here.contains(
                    (#[trigger] all[i]).range.zone_id,
                ) by {
                    assert(zones.take(n - 1).contains(earlier[i].range.zone_id));
                }
            },
        }
    }
}

/// The outputs that overlap no others are among all of them, each once.
proof fn lemma_alone_numbers(list: Seq<ResolvedCollapse>, n: int)
    requires
        0 <= n <= list.len(),
        forall|i: int, j: int|
            0 <= i < j < list.len() ==> (#[trigger] list[i]).range.zone_id != (
            #[trigger] list[j]).range.zone_id,
    ensures
        forall|i: int|
            0 <= i < alone(list, n).len() ==> list.take(n).contains(#[trigger] alone(list, n)[i]),
        forall|i: int, j: int|
            0 <= i < j < alone(list, n).len() ==> (#[trigger] alone(list, n)[i]).range.zone_id != (
            #[trigger] alone(list, n)[j]).range.zone_id,
    decreases n,
{
    if n > 0 {
        lemma_alone_numbers(list, n - 1);
        let earlier = alone(list, n - 1);
        let all = alone(list, n);
        assert forall|x: ResolvedCollapse| #[trigger] list.take(n - 1).contains(x) implies list.take(
            n,
        ).contains(x) && x.range.zone_id != list[n - 1].range.zone_id by {
            let i = choose|i: int| 0 <= i < n - 1 && (#[trigger] list.take(n - 1)[i]) == x;
            assert(list.take(n)[i] == x);
            assert(list[i].range.zone_id != list[n - 1].range.zone_id);
        }
        assert(list.take(n)[n - 1] == list[n - 1]);
        assert forall|i: int| 0 <= i < all.len() implies list.take(n).contains(
            #[trigger] all[i],
        ) by {
            if i < earlier.len() {
                assert(all[i] == earlier[i]);
            }
        }
        assert forall|i: int, j: int| 0 <= i < j < all.len() implies (
        #[trigger] all[i]).range.zone_id != (#[trigger] all[j]).range.zone_id by {
            assert(all[i] == earlier[i]);
            assert(list.take(n - 1).contains(earlier[i]));
            if j < earlier.len() {
                assert(all[j] == earlier[j]);
            }
        }
    }
}

/// The outputs that a policy folds lie apart.
proof fn lemma_resolved_lie_apart(state: TerminalState, ids: Seq<u64>)
    requires
        rising(ids),
    ensures
        lie_apart(resolved(state, ids)),
{
    let list = candidates(state, ids, ids.len() as int);
    let all = resolved(state, ids);
    lemma_candidate_numbers(state, ids, ids.len() as int);
    lemma_alone_numbers(list, list.len() as int);
    assert forall|i: int, j: int| 0 <= i < j < all.len() implies ends_before(
        #[trigger] all[i],
        #[trigger] all[j],
    ) by {
        folded_outputs_are_disjoint(state, ids, i, j);
    }
}

} // verus!
