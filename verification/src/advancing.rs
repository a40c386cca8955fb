//! A document that is advanced along with the output is the one that would be
//! made anew.

use vstd::prelude::*;

use crate::collapses::candidate;
use crate::collapses::candidates;
use crate::collapses::resolved;
use crate::fold_laws::begin_at;
use crate::fold_laws::lemma_begin_at;
use crate::fold_laws::lemma_countable;
use crate::fold_laws::lemma_first_touched;
use crate::fold_laws::lemma_touched_end;
use crate::folding::all_folded;
use crate::folding::effective;
use crate::folding::first_hidden;
use crate::folding::first_touched;
use crate::folding::folded;
use crate::folding::hard_end;
use crate::folding::hidden_end;
use crate::folding::part;
use crate::folding::summary_row;
use crate::folding::touched_end;
use crate::folding::touches;
use crate::grid::Line;
use crate::history::history_advanced;
use crate::layout::lemma_logical_end;
use crate::line_order::cells_are_countable;
use crate::line_order::cells_are_raw;
use crate::line_order::have_width;
use crate::line_order::in_line_order;
use crate::line_order::lemma_history_rows;
use crate::line_order::lemma_screen_rows;
use crate::line_order::lie_within;
use crate::line_order::lies_within;
use crate::plan::broken;
use crate::plan::fitting;
use crate::plan::glyphs_of;
use crate::plan::history_rows;
use crate::plan::identity_rows;
use crate::plan::logical_rows;
use crate::plan::screen_rows;
use crate::plan::Glyph;
use crate::plan::PlanModel;
use crate::plan::PlanRowModel;
use crate::plan::ResolvedCollapse;
use crate::plan::SourceCell;
use crate::planning::advanced;
use crate::planning::can_advance;
use crate::planning::document_width;
use crate::planning::ids_of;
use crate::planning::is_plan_of;
use crate::planning::leading;
use crate::planning::plan_adopted;
use crate::planning::plan_advances;
use crate::planning::plan_hit;
use crate::planning::plan_key;
use crate::planning::plan_requested;
use crate::planning::wraps_of;
use crate::projection::PlanKeyModel;
use crate::showing::is_sound;
use crate::showing::lemma_document_once;
use crate::showing::made_of;
use crate::state::once;
use crate::state::saturating_sum;
use crate::state::TerminalState;
use crate::view::logical_end;
use crate::view_laws::only_looked_at;

verus! {

/// Whether an output touches none of the rows.
spec fn leaves_alone(collapse: ResolvedCollapse, rows: Seq<PlanRowModel>) -> bool {
    forall|r: int| 0 <= r < rows.len() ==> !touches(collapse, #[trigger] rows[r])
}

/// Where an output touches only the rows in the middle, it touches the same
/// rows of the whole.
proof fn lemma_touched_inside(
    p: Seq<PlanRowModel>,
    m: Seq<PlanRowModel>,
    q: Seq<PlanRowModel>,
    collapse: ResolvedCollapse,
)
    requires
        leaves_alone(collapse, p),
        leaves_alone(collapse, q),
    ensures
        ({
            let all = p + m + q;
            let f = first_touched(collapse, m, 0);
            let e = touched_end(collapse, m, m.len() as int);
            if f < m.len() {
                &&& f < e <= m.len()
                &&& first_touched(collapse, all, 0) == p.len() + f
                &&& touched_end(collapse, all, all.len() as int) == p.len() + e
            } else {
                first_touched(collapse, all, 0) >= all.len()
            }
        }),
        0 <= first_touched(collapse, m, 0),
{
    let all = p + m + q;
    let np = p.len() as int;
    let nm = m.len() as int;
    let fa = first_touched(collapse, all, 0);
    let ea = touched_end(collapse, all, all.len() as int);
    let f = first_touched(collapse, m, 0);
    let e = touched_end(collapse, m, nm);
    lemma_first_touched(collapse, all, 0);
    lemma_touched_end(collapse, all, all.len() as int);
    lemma_first_touched(collapse, m, 0);
    lemma_touched_end(collapse, m, nm);
    assert forall|r: int| 0 <= r < all.len() implies touches(collapse, #[trigger] all[r]) == (np
        <= r < np + nm && touches(collapse, m[r - np])) by {
        if r < np {
            assert(all[r] == p[r]);
        } else if r < np + nm {
            assert(all[r] == m[r - np]);
        } else {
            assert(all[r] == q[r - np - nm]);
        }
    }
    if f < nm {
        assert(touches(collapse, all[np + f]));
        if fa > np + f {
            assert(!touches(collapse, all[np + f]));
        }
        if fa < np + f {
            assert(touches(collapse, all[fa]));
        }
        if e <= f {
            assert(!touches(collapse, m[f]));
        }
        assert(touches(collapse, all[np + e - 1]));
        if ea < np + e {
            assert(!touches(collapse, all[np + e - 1]));
        }
        if ea > np + e {
            assert(touches(collapse, all[ea - 1]));
        }
    } else if fa < all.len() {
        assert(touches(collapse, all[fa]));
    }
}

/// Only the last row of the whole is made to end.
proof fn lemma_hard_end_inside(p: Seq<PlanRowModel>, h: Seq<PlanRowModel>)
    requires
        p.len() > 0 ==> !p.last().wrapped,
    ensures
        hard_end(p + h) == p + hard_end(h),
{
    if h.len() == 0 {
        assert(p + h =~= p);
        assert(hard_end(p) =~= p);
        assert(hard_end(h) =~= h);
    } else {
        assert((p + h).last() == h.last());
        assert(hard_end(p + h) =~= p + hard_end(h));
    }
}

/// An output that touches only the rows in the middle is folded there.
proof fn lemma_fold_inside(
    p: Seq<PlanRowModel>,
    m: Seq<PlanRowModel>,
    q: Seq<PlanRowModel>,
    collapse: ResolvedCollapse,
    policy_revision: u64,
    cols: int,
)
    requires
        leaves_alone(collapse, p),
        leaves_alone(collapse, q),
        p.len() > 0 ==> !p.last().wrapped,
    ensures
        folded(p + m + q, collapse, policy_revision, cols) == p + folded(
            m,
            collapse,
            policy_revision,
            cols,
        ) + q,
        (first_touched(collapse, p + m + q, 0) < (p + m + q).len()) == (first_touched(
            collapse,
            m,
            0,
        ) < m.len()),
{
    let all = p + m + q;
    let np = p.len() as int;
    let f = first_touched(collapse, m, 0);
    let e = touched_end(collapse, m, m.len() as int);
    lemma_touched_inside(p, m, q, collapse);
    if f < m.len() {
        assert(all[np + f] == m[f]);
        assert(all[np + e - 1] == m[e - 1]);
        let before = part(m[f], 0, first_hidden(collapse, m[f].cells, 0), false);
        let behind = part(
            m[e - 1],
            hidden_end(collapse, m[e - 1].cells, cols),
            cols,
            m[e - 1].wrapped,
        );
        let summary = seq![summary_row(collapse, policy_revision, e - f, cols)];
        let head = m.take(f) + before;
        assert(all.take(np + f) + before =~= p + head);
        lemma_hard_end_inside(p, head);
        assert(all.skip(np + e) =~= m.skip(e) + q);
        let upper = hard_end(head);
        let lower = m.skip(e);
        assert(folded(m, collapse, policy_revision, cols) == upper + summary + (behind + lower));
        assert(folded(all, collapse, policy_revision, cols) == (p + upper) + summary + (behind + (
        lower + q)));
        assert((p + upper) + summary + (behind + (lower + q)) =~= p + (upper + summary + (behind
            + lower)) + q);
    }
}

/// Outputs that touch only the rows in the middle are folded there.
proof fn lemma_fold_all_inside(
    p: Seq<PlanRowModel>,
    m: Seq<PlanRowModel>,
    q: Seq<PlanRowModel>,
    collapses: Seq<ResolvedCollapse>,
    n: int,
    policy_revision: u64,
    cols: int,
)
    requires
        0 <= n <= collapses.len(),
        forall|k: int|
            0 <= k < n ==> leaves_alone(#[trigger] collapses[k], p) && leaves_alone(
                collapses[k],
                q,
            ),
        p.len() > 0 ==> !p.last().wrapped,
    ensures
        all_folded(p + m + q, collapses, n, policy_revision, cols) == p + all_folded(
            m,
            collapses,
            n,
            policy_revision,
            cols,
        ) + q,
        effective(p + m + q, collapses, n, policy_revision, cols) == effective(
            m,
            collapses,
            n,
            policy_revision,
            cols,
        ),
    decreases n,
{
    if n > 0 {
        lemma_fold_all_inside(p, m, q, collapses, n - 1, policy_revision, cols);
        assert(leaves_alone(collapses[n - 1], p));
        lemma_fold_inside(
            p,
            all_folded(m, collapses, n - 1, policy_revision, cols),
            q,
            collapses[n - 1],
            policy_revision,
            cols,
        );
    }
}

/// An output leaves rows of other lines alone.
proof fn lemma_other_lines(
    collapse: ResolvedCollapse,
    rows: Seq<PlanRowModel>,
    lo: int,
    hi: int,
)
    requires
        lie_within(rows, lo, hi),
        hi <= collapse.start_line || collapse.end_line < lo,
    ensures
        leaves_alone(collapse, rows),
{
    assert forall|r: int| 0 <= r < rows.len() implies !touches(
        collapse,
        #[trigger] rows[r],
    ) by {
        assert(lies_within(rows[r], lo, hi));
        lemma_none_hidden(collapse, rows[r].cells, 0, lo, hi);
    }
}

/// No cell of other lines is part of an output.
proof fn lemma_none_hidden(
    collapse: ResolvedCollapse,
    cells: Seq<Option<SourceCell>>,
    from: int,
    lo: int,
    hi: int,
)
    requires
        0 <= from <= cells.len(),
        forall|j: int|
            0 <= j < cells.len() && (#[trigger] cells[j]) is Some ==> lo <= cells[j]->0.line < hi,
        hi <= collapse.start_line || collapse.end_line < lo,
    ensures
        first_hidden(collapse, cells, from) == cells.len(),
    decreases cells.len() - from,
{
    if from < cells.len() {
        lemma_none_hidden(collapse, cells, from + 1, lo, hi);
    }
}

/// A logical line that ends before `mid` does not depend on what is behind.
proof fn lemma_end_split(lines: Seq<Line>, from: int, mid: int, end: int)
    requires
        0 <= from < mid <= end <= lines.len(),
        !lines[mid - 1].wrapped,
    ensures
        logical_end(lines, from, end) == logical_end(lines, from, mid),
    decreases mid - from,
{
    if from + 1 < mid && lines[from].wrapped {
        lemma_end_split(lines, from + 1, mid, end);
    }
}

/// Where a logical line ends, the rows of the history can be parted.
proof fn lemma_history_split(
    lines: Seq<Line>,
    first: u64,
    from: int,
    mid: int,
    end: int,
    cols: int,
)
    requires
        0 <= from <= mid <= end <= lines.len(),
        mid == from || !lines[mid - 1].wrapped,
    ensures
        history_rows(lines, first, from, end, cols) == history_rows(lines, first, from, mid, cols)
            + history_rows(lines, first, mid, end, cols),
    decreases mid - from,
{
    if from == mid {
        assert(history_rows(lines, first, from, mid, cols) =~= Seq::empty());
        assert(Seq::<PlanRowModel>::empty() + history_rows(lines, first, mid, end, cols)
            =~= history_rows(lines, first, mid, end, cols));
    } else {
        lemma_end_split(lines, from, mid, end);
        let next = logical_end(lines, from, end);
        lemma_logical_end(lines, from, mid);
        lemma_history_split(lines, first, next, mid, end, cols);
        let own = logical_rows(lines, first, from, next, cols);
        let upper = history_rows(lines, first, next, mid, cols);
        let lower = history_rows(lines, first, mid, end, cols);
        assert(own + (upper + lower) =~= (own + upper) + lower);
    }
}

/// Whether rows of one history are rows of another, `k` rows further up.
spec fn moved_up(old: Seq<Line>, new: Seq<Line>, k: int, from: int, end: int) -> bool {
    &&& 0 <= k
    &&& 0 <= from <= end <= new.len()
    &&& end + k <= old.len()
    &&& forall|r: int| from <= r < end ==> #[trigger] new[r] == old[r + k]
}

/// Logical lines move with their rows.
proof fn lemma_end_moved(old: Seq<Line>, new: Seq<Line>, k: int, from: int, end: int)
    requires
        moved_up(old, new, k, from, end),
        from < end,
    ensures
        logical_end(new, from, end) + k == logical_end(old, from + k, end + k),
    decreases end - from,
{
    assert(new[from] == old[from + k]);
    if from + 1 < end && new[from].wrapped {
        lemma_end_moved(old, new, k, from + 1, end);
    }
}

/// Characters move with their rows and keep their line numbers.
proof fn lemma_glyphs_moved(
    old: Seq<Line>,
    new: Seq<Line>,
    first: u64,
    k: int,
    from: int,
    end: int,
)
    requires
        moved_up(old, new, k, from, end),
        first + k <= u64::MAX,
    ensures
        glyphs_of(new, (first + k) as u64, from, end) == glyphs_of(old, first, from + k, end + k),
    decreases end - from,
{
    if from < end {
        assert(new[from] == old[from + k]);
        assert(saturating_sum((first + k) as u64, from) == saturating_sum(first, from + k));
        lemma_glyphs_moved(old, new, first, k, from + 1, end);
    }
}

/// Rows of a document move with the rows of the history.
proof fn lemma_history_moved(
    old: Seq<Line>,
    new: Seq<Line>,
    first: u64,
    k: int,
    from: int,
    end: int,
    cols: int,
)
    requires
        moved_up(old, new, k, from, end),
        first + k <= u64::MAX,
    ensures
        history_rows(new, (first + k) as u64, from, end, cols) == history_rows(
            old,
            first,
            from + k,
            end + k,
            cols,
        ),
    decreases end - from,
{
    if from < end {
        let next = logical_end(new, from, end);
        lemma_end_moved(old, new, k, from, end);
        lemma_logical_end(new, from, end);
        assert(moved_up(old, new, k, from, next));
        assert(moved_up(old, new, k, next, end));
        lemma_glyphs_moved(old, new, first, k, from, next);
        assert(new[from] == old[from + k]);
        assert(saturating_sum((first + k) as u64, from) == saturating_sum(first, from + k));
        lemma_history_moved(old, new, first, k, next, end, cols);
    }
}

/// Broken characters make a row.
proof fn lemma_broken_nonempty(glyphs: Seq<Glyph>, cols: int)
    requires
        glyphs.len() > 0,
    ensures
        broken(glyphs, cols).len() > 0,
{
    let n = fitting(glyphs, cols, cols);
    if n < 1 || n > glyphs.len() {
        assert(broken(glyphs, cols) == seq![glyphs]);
    } else {
        assert(broken(glyphs, cols) == seq![glyphs.take(n)] + broken(glyphs.skip(n), cols));
    }
}

/// The rows of the history end with one that does not continue.
proof fn lemma_history_ends(lines: Seq<Line>, first: u64, from: int, end: int, cols: int)
    requires
        0 <= from < end <= lines.len(),
    ensures
        history_rows(lines, first, from, end, cols).len() > 0,
        !history_rows(lines, first, from, end, cols).last().wrapped,
    decreases end - from,
{
    let next = logical_end(lines, from, end);
    lemma_logical_end(lines, from, end);
    let glyphs = glyphs_of(lines, first, from, next);
    let own = logical_rows(lines, first, from, next, cols);
    if glyphs.len() > 0 {
        lemma_broken_nonempty(glyphs, cols);
    }
    assert(own.len() > 0 && !own.last().wrapped);
    if next < end {
        lemma_history_ends(lines, first, next, end, cols);
        let rest = history_rows(lines, first, next, end, cols);
        assert((own + rest).last() == rest.last());
    } else {
        assert(own + history_rows(lines, first, next, end, cols) =~= own);
    }
}

/// Rows that begin before a line are counted up to the first one that does
/// not.
proof fn lemma_leading(rows: Seq<PlanRowModel>, limit: u64, from: int, n: int)
    requires
        0 <= from <= n <= rows.len(),
        forall|r: int|
            from <= r < n ==> (#[trigger] rows[r]).kind is Raw && rows[r].source is Some
                && rows[r].source->0.line < limit,
        n < rows.len() ==> rows[n].source is None || rows[n].source->0.line >= limit,
    ensures
        leading(rows, limit, from) == n,
    decreases n - from,
{
    if from < n {
        lemma_leading(rows, limit, from + 1, n);
    }
}

/// The documents before and after share the rows that stay.
proof fn lemma_shared_rows(
    old_lines: Seq<Line>,
    new_lines: Seq<Line>,
    first: u64,
    evicted: int,
    appended: int,
    cols: int,
)
    requires
        history_advanced(old_lines, new_lines, evicted, appended),
        appended >= 0,
        first + evicted <= u64::MAX,
        evicted > 0 ==> !old_lines[evicted - 1].wrapped,
        evicted < old_lines.len() ==> !old_lines.last().wrapped,
    ensures
        ({
            let len = old_lines.len() as int;
            let stay = len - evicted;
            let kept = history_rows(old_lines, first, evicted, len, cols);
            let new_first = (first + evicted) as u64;
            &&& history_rows(old_lines, first, 0, len, cols) == history_rows(
                old_lines,
                first,
                0,
                evicted,
                cols,
            ) + kept
            &&& history_rows(new_lines, new_first, 0, new_lines.len() as int, cols) == kept
                + history_rows(new_lines, new_first, stay, new_lines.len() as int, cols)
        }),
{
    let len = old_lines.len() as int;
    let stay = len - evicted;
    let new_first = (first + evicted) as u64;
    lemma_history_split(old_lines, first, 0, evicted, len, cols);
    assert forall|r: int| 0 <= r < stay implies #[trigger] new_lines[r] == old_lines[r
        + evicted] by {
        assert(new_lines[r] == new_lines.take(stay)[r]);
        assert(old_lines[r + evicted] == old_lines.skip(evicted)[r]);
    }
    assert(moved_up(old_lines, new_lines, evicted, 0, stay));
    lemma_history_moved(old_lines, new_lines, first, evicted, 0, stay, cols);
    if stay > 0 {
        assert(new_lines[stay - 1] == old_lines[len - 1]);
    }
    lemma_history_split(new_lines, new_first, 0, stay, new_lines.len() as int, cols);
}

/// Outputs among the lines that stay touch no others.
proof fn lemma_outputs_stay(
    gone: Seq<PlanRowModel>,
    old_screen: Seq<PlanRowModel>,
    arrived: Seq<PlanRowModel>,
    new_screen: Seq<PlanRowModel>,
    collapse: ResolvedCollapse,
    top: int,
    limit: int,
    edge: int,
    end: int,
)
    requires
        lie_within(gone, top, limit),
        lie_within(old_screen, edge, end),
        lie_within(arrived, edge, end),
        lie_within(new_screen, edge, end),
        limit <= collapse.start_line,
        collapse.end_line < edge,
    ensures
        leaves_alone(collapse, gone),
        leaves_alone(collapse, old_screen),
        leaves_alone(collapse, arrived + new_screen),
{
    lemma_other_lines(collapse, gone, top, limit);
    lemma_other_lines(collapse, old_screen, edge, end);
    lemma_other_lines(collapse, arrived, edge, end);
    lemma_other_lines(collapse, new_screen, edge, end);
    let lower = arrived + new_screen;
    assert forall|r: int| 0 <= r < lower.len() implies !touches(collapse, #[trigger] lower[r]) by {
        if r < arrived.len() {
            assert(lower[r] == arrived[r]);
        } else {
            assert(lower[r] == new_screen[r - arrived.len()]);
        }
    }
}

/// Rows of some lines are rows of more lines.
proof fn lemma_within_more(rows: Seq<PlanRowModel>, lo: int, hi: int, low: int, high: int)
    requires
        lie_within(rows, lo, hi),
        low <= lo,
        hi <= high,
    ensures
        lie_within(rows, low, high),
{
    assert forall|r: int| 0 <= r < rows.len() implies lies_within(
        #[trigger] rows[r],
        low,
        high,
    ) by {
        assert(lies_within(rows[r], lo, hi));
    }
}

/// The rows of a document, advanced, are those of the document made anew.
proof fn lemma_rows_advanced(
    gone: Seq<PlanRowModel>,
    kept: Seq<PlanRowModel>,
    old_screen: Seq<PlanRowModel>,
    arrived: Seq<PlanRowModel>,
    new_screen: Seq<PlanRowModel>,
    collapses: Seq<ResolvedCollapse>,
    policy_revision: u64,
    cols: int,
    top: int,
    limit: u64,
    edge: int,
    end: int,
)
    requires
        lie_within(gone, top, limit as int),
        lie_within(kept, limit as int, edge),
        lie_within(old_screen, edge, end),
        lie_within(arrived, edge, end),
        lie_within(new_screen, edge, end),
        limit <= edge,
        have_width(kept, cols),
        cells_are_raw(kept),
        in_line_order(kept),
        gone.len() > 0 ==> !gone.last().wrapped,
        forall|k: int|
            0 <= k < collapses.len() ==> limit <= (#[trigger] collapses[k]).start_line
                && collapses[k].end_line < edge,
    ensures
        ({
            let n = collapses.len() as int;
            let before = all_folded(
                gone + kept + old_screen,
                collapses,
                n,
                policy_revision,
                cols,
            );
            let anew = kept + (arrived + new_screen);
            &&& before.len() >= gone.len() + old_screen.len()
            &&& before.subrange(leading(before, limit, 0), before.len() - old_screen.len()) + (
            arrived + new_screen) == all_folded(anew, collapses, n, policy_revision, cols)
            &&& effective(gone + kept + old_screen, collapses, n, policy_revision, cols)
                == effective(anew, collapses, n, policy_revision, cols)
        }),
{
    let n = collapses.len() as int;
    let none = Seq::<PlanRowModel>::empty();
    let lower = arrived + new_screen;
    assert forall|k: int| 0 <= k < n implies leaves_alone(#[trigger] collapses[k], gone)
        && leaves_alone(collapses[k], old_screen) && leaves_alone(collapses[k], lower)
        && leaves_alone(collapses[k], none) by {
        lemma_outputs_stay(
            gone,
            old_screen,
            arrived,
            new_screen,
            collapses[k],
            top,
            limit as int,
            edge,
            end,
        );
    }
    lemma_fold_all_inside(gone, kept, old_screen, collapses, n, policy_revision, cols);
    lemma_fold_all_inside(none, kept, lower, collapses, n, policy_revision, cols);
    assert(none + kept + lower =~= kept + lower);
    lemma_cut(gone, kept, old_screen, collapses, policy_revision, cols, limit);
    let middle = all_folded(kept, collapses, n, policy_revision, cols);
    let before = gone + middle + old_screen;
    let from = gone.len() as int;
    assert(before.subrange(from, before.len() - old_screen.len()) =~= middle);
    assert(none + middle + lower =~= middle + lower);
}

/// A document advanced along with the output is the one that would be made
/// anew with the same outputs folded, where the history lost its oldest rows
/// and got new ones, and the numbers of the lines do not run out.
pub proof fn advanced_documents_are_current(
    old: TerminalState,
    new: TerminalState,
    cols: usize,
    collapses: Seq<ResolvedCollapse>,
    policy_revision: u64,
    ids: Seq<u64>,
    plan: PlanModel,
)
    requires
        old.core_wf(),
        new.core_wf(),
        cols >= 1,
        is_plan_of(old, cols, collapses, policy_revision, plan),
        can_advance(
            new,
            plan_key(old, cols, policy_revision, ids),
            plan_key(new, cols, policy_revision, ids),
            plan,
        ),
        history_advanced(
            old.history(),
            new.history(),
            new.first_line_id() - old.first_line_id(),
            new.total_lines_scrolled - old.total_lines_scrolled,
        ),
        new.total_lines_scrolled + new.grid@.len() <= u64::MAX,
    ensures
        is_plan_of(
            new,
            cols,
            collapses,
            policy_revision,
            advanced(new, plan_key(old, cols, policy_revision, ids), plan),
        ),
{
    let old_key = plan_key(old, cols, policy_revision, ids);
    let c = cols as int;
    let evicted = new.first_line_id() - old.first_line_id();
    let appended = new.total_lines_scrolled - old.total_lines_scrolled;
    lemma_countable(old);
    lemma_countable(new);
    lemma_advance_bounds(old, new, cols, collapses, policy_revision, ids, plan);
    lemma_identity_advanced(
        old.history(),
        new.history(),
        old.grid@,
        new.grid@,
        old.first_line_id() as u64,
        evicted,
        appended,
        collapses,
        policy_revision,
        c,
    );
}

/// What it takes to advance a document, in terms of its lines.
proof fn lemma_advance_bounds(
    old: TerminalState,
    new: TerminalState,
    cols: usize,
    collapses: Seq<ResolvedCollapse>,
    policy_revision: u64,
    ids: Seq<u64>,
    plan: PlanModel,
)
    requires
        old.scrollback@.len() <= old.total_lines_scrolled,
        new.scrollback@.len() <= new.total_lines_scrolled,
        is_plan_of(old, cols, collapses, policy_revision, plan),
        can_advance(
            new,
            plan_key(old, cols, policy_revision, ids),
            plan_key(new, cols, policy_revision, ids),
            plan,
        ),
        history_advanced(
            old.history(),
            new.history(),
            new.first_line_id() - old.first_line_id(),
            new.total_lines_scrolled - old.total_lines_scrolled,
        ),
        old.grid@.len() <= usize::MAX,
        new.grid@.len() <= usize::MAX,
    ensures
        ({
            let evicted = new.first_line_id() - old.first_line_id();
            &&& 0 <= evicted <= old.history().len()
            &&& 0 < new.total_lines_scrolled - old.total_lines_scrolled
            &&& evicted > 0 ==> !old.history()[evicted - 1].wrapped
            &&& evicted < old.history().len() ==> !old.history().last().wrapped
            &&& old.grid@.len() == new.grid@.len()
            &&& forall|k: int|
                0 <= k < collapses.len() ==> new.first_line_id() <= (
                #[trigger] collapses[k]).start_line && collapses[k].end_line
                    < old.total_lines_scrolled
        }),
{
    let old_lines = old.history();
    let new_lines = new.history();
    let evicted = new.first_line_id() - old.first_line_id();
    let stay = old_lines.len() - evicted;
    if evicted > 0 {
        assert(plan.history_wraps[evicted - 1] == old_lines[evicted - 1].wrapped);
    }
    if stay > 0 {
        assert(new_lines[stay - 1] == new_lines.take(stay)[stay - 1]);
        assert(old_lines.skip(evicted)[stay - 1] == old_lines.last());
    }
    assert forall|k: int| 0 <= k < collapses.len() implies new.first_line_id() <= (
    #[trigger] collapses[k]).start_line && collapses[k].end_line < old.total_lines_scrolled by {
        assert(plan.collapses[k] == collapses[k]);
    }
}

/// The rows of the document that folds outputs, advanced, are those of the
/// document made anew.
proof fn lemma_identity_advanced(
    old_lines: Seq<Line>,
    new_lines: Seq<Line>,
    old_grid: Seq<Line>,
    new_grid: Seq<Line>,
    first: u64,
    evicted: int,
    appended: int,
    collapses: Seq<ResolvedCollapse>,
    policy_revision: u64,
    cols: int,
)
    requires
        history_advanced(old_lines, new_lines, evicted, appended),
        cells_are_countable(old_lines),
        cells_are_countable(new_lines),
        appended > 0,
        evicted > 0 ==> !old_lines[evicted - 1].wrapped,
        evicted < old_lines.len() ==> !old_lines.last().wrapped,
        old_grid.len() == new_grid.len(),
        first + old_lines.len() + appended + new_grid.len() <= u64::MAX,
        1 <= cols <= usize::MAX,
        forall|k: int|
            0 <= k < collapses.len() ==> first + evicted <= (#[trigger] collapses[k]).start_line
                && collapses[k].end_line < first + old_lines.len(),
    ensures
        ({
            let n = collapses.len() as int;
            let limit = (first + evicted) as u64;
            let total = (first + old_lines.len() + appended) as u64;
            let len = new_lines.len() as int;
            let plain = identity_rows(old_lines, old_grid, first, cols);
            let anew = identity_rows(new_lines, new_grid, limit, cols);
            let before = all_folded(plain, collapses, n, policy_revision, cols);
            &&& before.subrange(leading(before, limit, 0), before.len() - old_grid.len()) + (
            history_rows(new_lines, limit, len - appended, len, cols) + screen_rows(
                new_grid,
                total,
                cols,
            )) == all_folded(anew, collapses, n, policy_revision, cols)
            &&& effective(plain, collapses, n, policy_revision, cols) == effective(
                anew,
                collapses,
                n,
                policy_revision,
                cols,
            )
        }),
{
    let limit = (first + evicted) as u64;
    let len = new_lines.len() as int;
    let stay = old_lines.len() - evicted;
    let edge = (first + old_lines.len()) as u64;
    let total = (edge + appended) as u64;
    let end = total + new_grid.len();
    let gone = history_rows(old_lines, first, 0, evicted, cols);
    let kept = history_rows(old_lines, first, evicted, old_lines.len() as int, cols);
    let arrived = history_rows(new_lines, limit, stay, len, cols);
    let old_screen = screen_rows(old_grid, edge, cols);
    let new_screen = screen_rows(new_grid, total, cols);
    if evicted > 0 {
        lemma_history_ends(old_lines, first, 0, evicted, cols);
    }
    lemma_shared_rows(old_lines, new_lines, first, evicted, appended, cols);
    lemma_history_rows(old_lines, first, 0, evicted, cols);
    lemma_history_rows(old_lines, first, evicted, old_lines.len() as int, cols);
    lemma_history_rows(new_lines, limit, stay, len, cols);
    lemma_screen_rows(old_grid, edge, cols);
    lemma_screen_rows(new_grid, total, cols);
    lemma_within_more(arrived, edge as int, total as int, edge as int, end);
    lemma_within_more(old_screen, edge as int, edge + old_grid.len(), edge as int, end);
    lemma_within_more(new_screen, total as int, end, edge as int, end);
    lemma_rows_advanced(
        gone,
        kept,
        old_screen,
        arrived,
        new_screen,
        collapses,
        policy_revision,
        cols,
        first as int,
        limit,
        edge as int,
        end,
    );
    assert(identity_rows(old_lines, old_grid, first, cols) == gone + kept + old_screen);
    assert(identity_rows(new_lines, new_grid, limit, cols) =~= kept + (arrived + new_screen));
}

/// The history that a document of `old_lines` covers after it was advanced to
/// the history `lines`.
spec fn history_covered(
    old_lines: Seq<Line>,
    lines: Seq<Line>,
    evicted: int,
) -> Seq<Line> {
    old_lines.skip(evicted) + lines.skip(old_lines.len() - evicted)
}

/// A document advanced along with the output is one of rows that do not share
/// identities, where it was one before.
pub proof fn lemma_advance_is_sound(
    state: TerminalState,
    old_key: PlanKeyModel,
    new_key: PlanKeyModel,
    plan: PlanModel,
)
    requires
        state.core_wf(),
        new_key.total_lines_scrolled == state.total_lines_scrolled,
        new_key.scrollback_len == state.scrollback@.len(),
        new_key.rows == state.grid@.len(),
        can_advance(state, old_key, new_key, plan),
        is_sound(old_key, plan),
    ensures
        is_sound(new_key, advanced(state, old_key, plan)),
{
    let (old_lines, old_grid, policy_revision) = choose|
        history: Seq<Line>,
        screen: Seq<Line>,
        policy_revision: u64,
    | #[trigger] made_of(old_key, plan, history, screen, policy_revision);
    let lines = state.history();
    let appended = new_key.total_lines_scrolled - old_key.total_lines_scrolled;
    let evicted = old_key.scrollback_len + appended - new_key.scrollback_len;
    let stay = old_lines.len() - evicted;
    let covered = history_covered(old_lines, lines, evicted);
    let cols = plan.cols as int;
    let first = plan.first_line;
    assert(plan.history_ids.len() == old_lines.len());
    lemma_countable(state);
    lemma_document_once(state);
    assert forall|r: int| 0 <= r < covered.len() implies (#[trigger] covered[r]).id == lines[r].id
        && covered[r].wrapped == lines[r].wrapped && covered[r].cells.len() <= usize::MAX && (r
        >= stay ==> covered[r] == lines[r]) by {
        if r < stay {
            assert(covered[r] == old_lines[evicted + r]);
            assert(plan.history_ids[evicted + r] == old_lines[evicted + r].id);
            assert(plan.history_wraps[evicted + r] == old_lines[evicted + r].wrapped);
            assert(lines[r].id == plan.history_ids[evicted + r]);
        } else {
            assert(covered[r] == lines[r]);
        }
    }
    assert(covered.len() == lines.len());
    assert(history_advanced(old_lines, covered, evicted, appended)) by {
        assert(covered.take(stay) =~= old_lines.skip(evicted));
    }
    if evicted > 0 {
        assert(plan.history_wraps[evicted - 1] == old_lines[evicted - 1].wrapped);
    }
    if evicted < old_lines.len() {
        assert(covered[stay - 1] == old_lines.last());
    }
    lemma_identity_advanced(
        old_lines,
        covered,
        old_grid,
        state.grid@,
        first,
        evicted,
        appended,
        plan.collapses,
        policy_revision,
        cols,
    );
    let limit = (first + evicted) as u64;
    let len = lines.len() as int;
    assert(moved_up(lines, covered, 0, len - appended, len));
    lemma_history_moved(lines, covered, limit, 0, len - appended, len, cols);
    assert(once(covered + state.grid@)) by {
        let all = covered + state.grid@;
        let own = lines + state.grid@;
        assert forall|i: int| 0 <= i < all.len() implies (#[trigger] all[i]).id == own[i].id by {
            if i < len {
                assert(all[i] == covered[i]);
            }
        }
        assert forall|i: int, j: int| 0 <= i < j < all.len() implies (
        #[trigger] all[i]).id.raw == 0 || all[i].id != (#[trigger] all[j]).id by {
            assert(own[i].id.raw == 0 || own[i].id != own[j].id);
        }
    }
    let result = advanced(state, old_key, plan);
    assert(ids_of(covered) =~= ids_of(lines));
    assert(wraps_of(covered) =~= wraps_of(lines));
    assert(made_of(new_key, result, covered, state.grid@, policy_revision));
}

/// The rows that leave a document at the top are those of the lines that left.
proof fn lemma_cut(
    gone: Seq<PlanRowModel>,
    kept: Seq<PlanRowModel>,
    screen: Seq<PlanRowModel>,
    collapses: Seq<ResolvedCollapse>,
    policy_revision: u64,
    cols: int,
    limit: u64,
)
    requires
        exists|lo: int| #[trigger] lie_within(gone, lo, limit as int),
        exists|hi: int| #[trigger] lie_within(kept, limit as int, hi),
        exists|lo: int, hi: int| #[trigger] lie_within(screen, lo, hi) && limit <= lo,
        have_width(kept, cols),
        cells_are_raw(kept),
        in_line_order(kept),
    ensures
        leading(
            gone + all_folded(kept, collapses, collapses.len() as int, policy_revision, cols)
                + screen,
            limit,
            0,
        ) == gone.len(),
{
    let n = collapses.len() as int;
    let middle = all_folded(kept, collapses, n, policy_revision, cols);
    let all = gone + middle + screen;
    let top = choose|lo: int| #[trigger] lie_within(gone, lo, limit as int);
    let end = choose|hi: int| #[trigger] lie_within(kept, limit as int, hi);
    let (lo, hi) = choose|lo: int, hi: int| #[trigger] lie_within(screen, lo, hi) && limit <= lo;
    assert(begin_at(kept, limit as int)) by {
        assert forall|r: int|
            0 <= r < kept.len() && (#[trigger] kept[r]).source is Some implies limit
            <= kept[r].source->0.line by {
            assert(lies_within(kept[r], limit as int, end));
        }
        assert forall|r: int, j: int|
            0 <= r < kept.len() && 0 <= j < kept[r].cells.len() && (
            #[trigger] kept[r].cells[j]) is Some implies limit <= kept[r].cells[j]->0.line by {
            assert(lies_within(kept[r], limit as int, end));
        }
    }
    lemma_begin_at(kept, collapses, n, policy_revision, cols, limit as int);
    assert forall|r: int| 0 <= r < gone.len() implies (#[trigger] all[r]).kind is Raw
        && all[r].source is Some && all[r].source->0.line < limit by {
        assert(all[r] == gone[r]);
        assert(lies_within(gone[r], top, limit as int));
    }
    let g = gone.len() as int;
    if g < all.len() {
        if middle.len() > 0 {
            assert(all[g] == middle[0]);
        } else {
            assert(all[g] == screen[0]);
            assert(lies_within(screen[0], lo, hi));
        }
    }
    lemma_leading(all, limit, 0, g);
}

/// Whether the remembered document, where it depends on rows as they are now,
/// is the document of these rows.
pub open spec fn plan_cache_valid(state: TerminalState) -> bool {
    match state.caches.plan {
        Some(cache) => forall|cols: usize, policy_revision: u64, ids: Seq<u64>|
            state.provenance.revision != 0 && cache.key@ == #[trigger] plan_key(
                state,
                cols,
                policy_revision,
                ids,
            ) ==> is_plan_of(
                state,
                document_width(cols),
                resolved(state, ids),
                policy_revision,
                cache.plan@,
            ),
        None => true,
    }
}

/// A document that is handed out, remembered or made anew, is the one of the
/// rows as they are, and what is remembered stays so.
pub proof fn documents_are_current(
    pre: TerminalState,
    cols: usize,
    policy_revision: u64,
    ids: Seq<u64>,
    post: TerminalState,
    result: Option<PlanModel>,
)
    requires
        plan_cache_valid(pre),
        !plan_advances(pre, plan_key(pre, cols, policy_revision, ids)),
        pre.provenance.revision != 0,
        plan_requested(pre, cols, policy_revision, ids, post, result),
    ensures
        result matches Some(plan) ==> is_plan_of(
            pre,
            document_width(cols),
            resolved(pre, ids),
            policy_revision,
            plan,
        ),
        plan_cache_valid(post),
{
    let key = plan_key(pre, cols, policy_revision, ids);
    if !plan_hit(pre, key) {
        let collapses = resolved(pre, ids);
        if collapses.len() > 0 {
            let plan = choose|plan: PlanModel|
                {
                    &&& is_plan_of(
                        pre,
                        document_width(cols),
                        collapses,
                        policy_revision,
                        plan,
                    )
                    &&& plan.plan_revision == 0
                    &&& plan.incremental_from is None
                    &&& plan.incremental_appended_rows == 0
                    &&& #[trigger] plan_adopted(pre, key, plan, post, result)
                };
            assert(plan_adopted(pre, key, plan, post, result));
            assert forall|c: usize, r: u64, i: Seq<u64>|
                post.caches.plan is Some && key == #[trigger] plan_key(
                    post,
                    c,
                    r,
                    i,
                ) implies is_plan_of(
                post,
                document_width(c),
                resolved(post, i),
                r,
                post.caches.plan->0.plan@,
            ) by {
                assert(c == cols && r == policy_revision && i == ids);
                lemma_resolved_same(pre, post, ids);
            }
        }
    }
}

/// What is to be folded does not depend on who looked at it.
pub proof fn lemma_resolved_same(a: TerminalState, b: TerminalState, ids: Seq<u64>)
    requires
        only_looked_at(a, b),
    ensures
        resolved(a, ids) == resolved(b, ids),
{
    lemma_candidates_same(a, b, ids, ids.len() as int);
}

/// Retained outputs do not depend on who looked at them.
proof fn lemma_candidates_same(
    a: TerminalState,
    b: TerminalState,
    zones: Seq<u64>,
    n: int,
)
    requires
        only_looked_at(a, b),
    ensures
        candidates(a, zones, n) == candidates(b, zones, n),
    decreases n,
{
    if n > 0 {
        lemma_candidates_same(a, b, zones, n - 1);
        assert(a.document() == b.document());
        assert(candidate(a, zones[n - 1]) == candidate(b, zones[n - 1]));
    }
}

} // verus!
