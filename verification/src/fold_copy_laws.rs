//! What copying from a folded document gives.

use vstd::prelude::*;

use crate::cell::CellRole;
use crate::folded_selection::covered_columns;
use crate::folded_selection::ordered_points;
use crate::folded_selection::row_copied;
use crate::folded_selection::row_roles;
use crate::folded_selection::shown_text;
use crate::folded_selection::CopyState;
use crate::materialize::source_cell;
use crate::plan::PlanRowModel;
use crate::projection::ProjectedSelection;
use crate::state::SelectionMode;
use crate::state::TerminalState;

verus! {

/// Whether every column of a document row shows a cell of single width that is still
/// there.
pub open spec fn shows_narrow_cells(state: TerminalState, row: PlanRowModel) -> bool {
    forall|j: int|
        0 <= j < row.cells.len() ==> (#[trigger] row.cells[j]) is Some && source_cell(
            state,
            row.cells[j]->0,
        ) is Some && source_cell(state, row.cells[j]->0)->0.flags.role == CellRole::Single
}

/// The characters that a document row shows in the columns `from..to`.
pub open spec fn characters_shown(
    state: TerminalState,
    row: PlanRowModel,
    from: int,
    to: int,
) -> Seq<char> {
    Seq::new(
        (to - from) as nat,
        |i: int| source_cell(state, row.cells[from + i]->0)->0.character,
    )
}

/// Single cells give their characters one by one.
proof fn lemma_shown(state: TerminalState, row: PlanRowModel, from: int, to: int)
    requires
        shows_narrow_cells(state, row),
        0 <= from <= to <= row.cells.len(),
    ensures
        shown_text(state, row.cells, from, to) == Some(characters_shown(state, row, from, to)),
    decreases to - from,
{
    if from < to {
        lemma_shown(state, row, from, to - 1);
        assert(row.cells[to - 1] is Some);
        assert(characters_shown(state, row, from, to) =~= characters_shown(
            state,
            row,
            from,
            to - 1,
        ).push(source_cell(state, row.cells[to - 1]->0)->0.character));
    } else {
        assert(characters_shown(state, row, from, to) =~= Seq::<char>::empty());
    }
}

/// A folded output gives nothing to what is copied but a line break between what is
/// before it and what is behind; a row of the terminal gives the characters of the
/// columns that are selected on it, and a line break where more rows are selected and
/// it does not go on in the next.
pub proof fn folded_documents_are_copied_row_by_row(
    state: TerminalState,
    selection: ProjectedSelection,
    row: PlanRowModel,
    index: int,
    before: CopyState,
    left: int,
    right: int,
)
    requires
        row.cells.len() > 0,
        (left as usize, right as usize) == covered_columns(
            selection,
            index,
            (row.cells.len() - 1) as usize,
        ),
        0 <= left <= right < row.cells.len() <= usize::MAX,
        row.kind is Raw ==> shows_narrow_cells(state, row),
        row.kind is CollapsedSummary ==> forall|j: int|
            0 <= j < row.cells.len() ==> (#[trigger] row.cells[j]) is None,
    ensures
        row.kind is CollapsedSummary ==> (row_copied(
            state,
            selection,
            row,
            index,
            before,
        ) matches Some(after) && after.text == before.text),
        row.kind is Raw ==> row_copied(state, selection, row, index, before) == Some(
            CopyState {
                text: ({
                    let begun = if before.break_due {
                        before.text.push('\n')
                    } else {
                        before.text
                    };
                    let full = begun + characters_shown(state, row, left, right + 1);
                    if index < ordered_points(selection).1.row && (selection.mode
                        == SelectionMode::Block || !row.wrapped) {
                        full.push('\n')
                    } else {
                        full
                    }
                }),
                break_due: false,
            },
        ),
{
    let roles = row_roles(state, row);
    if row.kind is Raw {
        assert(row.cells[left] is Some && row.cells[right] is Some);
        assert(roles[left] == Some(CellRole::Single));
        assert(roles[right] == Some(CellRole::Single));
        lemma_shown(state, row, left, right + 1);
        assert(row.cells[0] is Some);
        assert(crate::folding::first_cell(row.cells, 0) is Some);
    } else if row.kind is CollapsedSummary {
        assert(row.cells[left] is None && row.cells[right] is None);
        assert(roles[left] is None && roles[right] is None);
    }
}

/// The columns that a selection covers on a row of a folded document: within one row
/// those between its ends, over several rows all to the end of the first, from the
/// beginning of the last and whole rows between; a block covers the same columns on
/// each of its rows.
pub proof fn folded_selections_cover_columns(selection: ProjectedSelection, row: int, last: usize)
    requires
        selection.anchor.point.row < selection.active.point.row || (selection.anchor.point.row
            == selection.active.point.row && selection.anchor.point.column
            <= selection.active.point.column),
        selection.anchor.point.row <= row <= selection.active.point.row,
    ensures
        ({
            let first = selection.anchor.point;
            let end = selection.active.point;
            let columns = covered_columns(selection, row, last);
            if selection.mode == SelectionMode::Block {
                &&& columns.0 <= columns.1
                &&& columns == (first.column, end.column) || columns == (end.column, first.column)
            } else {
                &&& columns.0 == if row == first.row {
                    first.column
                } else {
                    0
                }
                &&& columns.1 == if row == end.row {
                    end.column
                } else {
                    last
                }
            }
        }),
{
}

} // verus!
