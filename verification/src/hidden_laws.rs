//! What a summary says of the output that it stands for.

use vstd::prelude::*;

use crate::fold_laws::lemma_first_touched;
use crate::fold_laws::lemma_touched_end;
use crate::folding::folded;
use crate::folding::is_hidden;
use crate::folding::part;
use crate::folding::touches;
use crate::plan::PlanRowModel;
use crate::plan::ResolvedCollapse;

verus! {

/// A cell lies in an output where it stands at its beginning or behind and before its
/// end, in the order of lines and columns.
pub proof fn outputs_reach_from_beginning_to_end(
    collapse: ResolvedCollapse,
    line: u64,
    column: usize,
)
    ensures
        is_hidden(collapse, line, column) <==> ({
            let behind = line > collapse.start_line || (line == collapse.start_line && column
                >= collapse.range.start.col);
            let before = line < collapse.end_line || (line == collapse.end_line && column
                < collapse.range.end.col);
            behind && before
        }),
{
}

/// A folded output has one summary in its place. It tells which output it is and how
/// many rows of the document, from the first to the last that show any of it, it stands
/// for. The rows before and behind these stay, and what stands on the first and on the
/// last of them outside the output.
pub proof fn summaries_count_the_rows_they_stand_for(
    rows: Seq<PlanRowModel>,
    collapse: ResolvedCollapse,
    policy_revision: u64,
    cols: int,
    first: int,
    last: int,
) -> (s: int)
    requires
        0 <= first <= last < rows.len() <= usize::MAX,
        touches(collapse, rows[first]),
        touches(collapse, rows[last]),
        forall|r: int| 0 <= r < first ==> !touches(collapse, #[trigger] rows[r]),
        forall|r: int| last < r < rows.len() ==> !touches(collapse, #[trigger] rows[r]),
    ensures
        ({
            let now = folded(rows, collapse, policy_revision, cols);
            &&& first <= s <= first + 1
            &&& s < now.len()
            &&& now[s].kind is CollapsedSummary
            &&& now[s].kind->hidden_rows == last - first + 1
            &&& now[s].kind->hidden_range == collapse.range
            &&& now[s].kind->key.zone_id == collapse.range.zone_id
            &&& now[s].kind->key.policy_revision == policy_revision
            &&& now.len() <= rows.len() - (last - first + 1) + 3
            &&& forall|r: int| 0 <= r < first - 1 ==> #[trigger] now[r] == rows[r]
            &&& forall|k: int|
                1 <= k < rows.len() - last ==> #[trigger] now[now.len() - k] == rows[rows.len() - k]
        }),
{
    lemma_first_touched(collapse, rows, 0);
    lemma_touched_end(collapse, rows, rows.len() as int);
    let f = crate::folding::first_touched(collapse, rows, 0);
    let e = crate::folding::touched_end(collapse, rows, rows.len() as int);
    assert(f == first);
    assert(e == last + 1);
    let left = part(
        rows[f],
        0,
        crate::folding::first_hidden(collapse, rows[f].cells, 0),
        false,
    );
    let right = part(
        rows[e - 1],
        crate::folding::hidden_end(collapse, rows[e - 1].cells, cols),
        cols,
        rows[e - 1].wrapped,
    );
    assert(left.len() <= 1 && right.len() <= 1);
    let head = crate::folding::hard_end(rows.take(f) + left);
    let now = folded(rows, collapse, policy_revision, cols);
    let s = head.len() as int;
    assert(s == f + left.len());
    assert(now.len() == s + 1 + right.len() + (rows.len() - e));
    assert forall|k: int| 1 <= k < rows.len() - last implies #[trigger] now[now.len() - k]
        == rows[rows.len() - k] by {
        assert(rows.skip(e)[rows.len() - e - k] == rows[rows.len() - k]);
    }
    assert forall|r: int| 0 <= r < first - 1 implies #[trigger] now[r] == rows[r] by {
        assert(head[r] == rows[r]);
    }
    s
}

} // verus!
