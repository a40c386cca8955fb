//! Which cells an output owns, and when it is forgotten.

use vstd::prelude::*;

use crate::output::closed_output;
use crate::output::covered_rows;
use crate::output::noted_reposition;
use crate::provenance::hit_among;
use crate::provenance::outputs_dropped;
use crate::provenance::span_hits;
use crate::provenance::zones_hit;
use crate::provenance::BufferAnchor;
use crate::provenance::FinishedOutputProvenance;
use crate::grid::Line;
use crate::grid::RawRowId;
use crate::scrolling::spans_invalidated;
use crate::state::TerminalState;

verus! {

/// Whether an output owns one of the columns `from..to` of a row.
pub open spec fn owns_any(state: TerminalState, zone: u64, id: RawRowId, from: int, to: int) -> bool {
    let owners = state.provenance.owner_map();
    owners.contains_key(id.raw) && exists|k: int, column: int|
        0 <= k < owners[id.raw].len() && #[trigger] owned(owners[id.raw][k], zone, column) && from
            <= column < to
}

/// Whether an entry gives a column to an output.
pub open spec fn owned(
    owner: crate::provenance::FinishedOutputOwner,
    zone: u64,
    column: int,
) -> bool {
    owner.zone_id == zone && owner.start_col <= column < owner.end_col
}

/// Changing columns of a row of the primary screen forgets the outputs that own one of
/// them, and no other. On the alternate screen none is forgotten.
pub proof fn changed_cells_lose_their_outputs(
    pre: TerminalState,
    id: RawRowId,
    from: usize,
    to: usize,
    post: TerminalState,
    zone: u64,
)
    requires
        id.raw != 0,
        from < to,
        pre.provenance.zones@.contains_key(zone),
        forall|k: int|
            pre.provenance.owner_map().contains_key(id.raw) && 0 <= k
                < pre.provenance.owner_map()[id.raw].len() ==> (
            #[trigger] pre.provenance.owner_map()[id.raw][k]).start_col
                < pre.provenance.owner_map()[id.raw][k].end_col,
        spans_invalidated(pre, seq![(id, from, to)], post),
    ensures
        pre.use_alt_buffer ==> post == pre,
        !pre.use_alt_buffer && owns_any(pre, zone, id, from as int, to as int)
            ==> !post.provenance.zones@.contains_key(zone),
        !pre.use_alt_buffer && !owns_any(pre, zone, id, from as int, to as int)
            ==> post.provenance.zones@.contains_key(zone) && post.provenance.zones@[zone]
            == pre.provenance.zones@[zone],
        post.grid == pre.grid,
{
    reveal(zones_hit);
    reveal(outputs_dropped);
    if !pre.use_alt_buffer {
        let owners = pre.provenance.owner_map();
        let spans = seq![(id, from, to)];
        assert(spans[0] == (id, from, to));
        let gone = zones_hit(owners, spans);
        if owns_any(pre, zone, id, from as int, to as int) {
            let (k, column) = choose|k: int, column: int|
                0 <= k < owners[id.raw].len() && #[trigger] owned(
                    owners[id.raw][k],
                    zone,
                    column,
                ) && from <= column < to;
            assert(span_hits(owners, spans[0], k, zone));
            assert(gone.contains(zone));
        } else if gone.contains(zone) {
            assert(hit_among(owners, spans, 1, zone));
            let (s, k) = choose|s: int, k: int|
                0 <= s < 1 && #[trigger] span_hits(owners, spans[s], k, zone);
            let owner = owners[id.raw][k];
            let column = if owner.start_col > from {
                owner.start_col as int
            } else {
                from as int
            };
            assert(owned(owner, zone, column));
        }
    }
}

/// The rows of an output from one place to another: its first row from the column where
/// it begins, its last to the column where it ends, and whole rows between.
pub proof fn outputs_cover_their_rows(lines: Seq<Line>, start: (int, int), end: (int, int), k: int)
    requires
        0 <= start.0 <= end.0 < lines.len(),
        0 <= start.1 <= usize::MAX,
        0 <= end.1 <= usize::MAX,
        0 <= k <= end.0 - start.0,
        forall|r: int| 0 <= r < lines.len() ==> (#[trigger] lines[r]).cells.len() <= usize::MAX,
    ensures
        ({
            let rows = covered_rows(lines, start, end);
            &&& rows.len() == end.0 - start.0 + 1
            &&& rows[k].row_id == lines[start.0 + k].id
            &&& k == 0 ==> rows[k].start_col == start.1
            &&& k > 0 ==> rows[k].start_col == 0
            &&& k == end.0 - start.0 ==> rows[k].end_col == end.1
            &&& k < end.0 - start.0 ==> rows[k].end_col == lines[start.0 + k].cells.len()
        }),
{
}

/// An output that is closed begins at the row and column where its mark was and ends
/// where it was last written, both by the identities of their rows. It is not known
/// exactly where the cursor was moved since, or where it was given up.
pub proof fn closed_outputs_reach_from_mark_to_last_write(
    state: TerminalState,
    zone: u64,
    result: Option<(FinishedOutputProvenance, BufferAnchor, BufferAnchor)>,
)
    requires
        state.core_wf(),
        closed_output(state, zone, result),
    ensures
        result is Some ==> ({
            let active = state.provenance.active->0;
            let range = (result->0).0.range;
            let first = state.row_of_id(active.start_row_id, Some(active.start))->0;
            let cells = state.document()[first].cells;
            &&& state.provenance.active is Some
            &&& active.zone_id == zone
            &&& !active.invalid
            &&& !active.cursor_moved_since_output
            &&& active.extent is Some
            &&& range.zone_id == zone
            &&& range.start.row == state.document()[first].id
            &&& active.start.column < cells.len() && !cells[active.start.column as int].flags.spec_continuation()
                ==> range.start.col == active.start.column
            &&& (result->0).1.column == range.start.col
        }),
        state.provenance.active is None ==> result is None,
        state.provenance.active is Some && (state.provenance.active->0.invalid
            || state.provenance.active->0.cursor_moved_since_output) ==> result is None,
{
}

/// Moving the cursor leaves the running output where it was, but its end is no longer
/// known exactly until more is written; a jump to another row gives it up.
pub proof fn moves_interrupt_the_running_output(pre: TerminalState, non_linear: bool)
    requires
        !pre.use_alt_buffer,
        pre.provenance.active is Some,
    ensures
        ({
            let before = pre.provenance.active->0;
            &&& noted_reposition(pre, non_linear) is Some
            &&& noted_reposition(pre, non_linear)->0.cursor_moved_since_output
            &&& noted_reposition(pre, non_linear)->0.invalid == (before.invalid || non_linear)
            &&& noted_reposition(pre, non_linear)->0.start == before.start
            &&& noted_reposition(pre, non_linear)->0.extent == before.extent
        }),
{
}

} // verus!
