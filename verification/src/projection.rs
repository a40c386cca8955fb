//! The vocabulary of projected views: documents in which the output of chosen
//! commands is folded into one summary row each.

use std::sync::Arc;
use vstd::prelude::*;

use crate::document::RawCellAnchor;
use crate::grid::RawRowId;
use crate::provenance::FinishedOutputRange;
use crate::state::SelectionMode;

verus! {

/// A cell of a view.
#[derive(Clone, Copy, Debug, PartialEq, Eq, Structural)]
pub struct DisplayPoint {
    pub row: usize,
    pub column: usize,
}

impl DisplayPoint {
    /// The cell in the given row and column.
    pub fn new(row: usize, column: usize) -> (point: DisplayPoint)
        ensures
            point == (DisplayPoint { row, column }),
    {
        DisplayPoint { row, column }
    }
}

/// A cell of a projected document.
#[derive(Clone, Copy, Debug, PartialEq, Eq, Structural)]
pub struct DocumentPoint {
    pub row: usize,
    pub column: usize,
}

impl DocumentPoint {
    /// Document order.
    pub open spec fn precedes_or_is(self, other: DocumentPoint) -> bool {
        self.row < other.row || (self.row == other.row && self.column <= other.column)
    }

    /// Document order.
    pub fn le(&self, other: &DocumentPoint) -> (yes: bool)
        ensures
            yes == self.precedes_or_is(*other),
    {
        self.row < other.row || (self.row == other.row && self.column <= other.column)
    }
}

/// The version of the projection that a view is made through.
#[derive(Clone, Copy, Debug, PartialEq, Eq, Structural)]
pub struct HistoryProjection {
    pub revision: u64,
}

impl HistoryProjection {
    /// The projection that hides nothing.
    pub fn identity() -> (projection: HistoryProjection)
        ensures
            projection == (HistoryProjection { revision: 0 }),
    {
        HistoryProjection { revision: 0 }
    }

    /// The projection that hides nothing, under a version of the caller's.
    pub fn identity_at_revision(revision: u64) -> (projection: HistoryProjection)
        ensures
            projection == (HistoryProjection { revision }),
    {
        HistoryProjection { revision }
    }

    /// The version.
    pub fn revision(&self) -> (revision: u64)
        ensures
            revision == self.revision,
    {
        self.revision
    }
}

/// `revision + 1`; past the largest, one. Zero never comes up.
pub open spec fn policy_revision_after(revision: u64) -> u64 {
    if revision == u64::MAX {
        1
    } else {
        (revision + 1) as u64
    }
}

/// Numbers in strictly rising order.
pub open spec fn rising(ids: Seq<u64>) -> bool {
    forall|i: int, j: int| 0 <= i < j < ids.len() ==> ids[i] < ids[j]
}

/// Which outputs are to be folded.
pub struct ProjectionPolicy {
    pub revision: u64,
    pub collapsed: Vec<u64>,
}

impl View for ProjectionPolicy {
    type V = Set<u64>;

    /// The outputs to be folded.
    open spec fn view(&self) -> Set<u64> {
        self.collapsed@.to_set()
    }
}

/// The position in `ids` where `id` stands or belongs.
fn slot_of(ids: &Vec<u64>, id: u64) -> (slot: usize)
    requires
        rising(ids@),
    ensures
        slot <= ids@.len(),
        forall|i: int| 0 <= i < slot ==> ids@[i] < id,
        forall|i: int| slot <= i < ids@.len() ==> ids@[i] >= id,
{
    let mut slot: usize = 0;
    while slot < ids.len() && ids[slot] < id
        invariant
            rising(ids@),
            slot <= ids@.len(),
            forall|i: int| 0 <= i < slot ==> ids@[i] < id,
        decreases ids.len() - slot,
    {
        slot = slot + 1;
    }
    slot
}

/// Lists `id` among rising numbers; false where it is listed already.
pub fn insert_id(ids: &mut Vec<u64>, id: u64) -> (changed: bool)
    requires
        rising(old(ids)@),
    ensures
        rising(final(ids)@),
        changed == !old(ids)@.contains(id),
        final(ids)@.to_set() == old(ids)@.to_set().insert(id),
        !changed ==> final(ids)@ == old(ids)@,
{
    let slot = slot_of(ids, id);
    let ghost before = ids@;
    if slot < ids.len() && ids[slot] == id {
        assert(before.contains(id));
        assert(before.to_set().insert(id) =~= before.to_set());
        return false;
    }
    ids.insert(slot, id);
    proof {
        let after = ids@;
        assert(after == before.insert(slot as int, id));
        assert(!before.contains(id));
        assert(after.to_set() =~= before.to_set().insert(id)) by {
            assert forall|other: u64| after.contains(other) == (before.contains(other) || other
                == id) by {
                if before.contains(other) {
                    let k = choose|k: int| 0 <= k < before.len() && before[k] == other;
                    assert(after[if k < slot { k } else { k + 1 }] == other);
                }
                assert(after[slot as int] == id);
                if after.contains(other) {
                    let k = choose|k: int| 0 <= k < after.len() && after[k] == other;
                    if k < slot {
                        assert(before[k] == other);
                    } else if k > slot {
                        assert(before[k - 1] == other);
                    }
                }
            }
        }
    }
    true
}

/// Copies numbers.
pub fn copy_ids(ids: &Vec<u64>) -> (copied: Vec<u64>)
    ensures
        copied@ == ids@,
{
    let mut copied: Vec<u64> = Vec::new();
    let mut i: usize = 0;
    while i < ids.len()
        invariant
            i <= ids@.len(),
            copied@ == ids@.take(i as int),
        decreases ids.len() - i,
    {
        copied.push(ids[i]);
        i = i + 1;
        assert(copied@ =~= ids@.take(i as int));
    }
    assert(ids@.take(i as int) =~= ids@);
    copied
}

/// Whether two lists of numbers are the same.
pub fn same_ids(a: &Vec<u64>, b: &Vec<u64>) -> (same: bool)
    ensures
        same == (a@ == b@),
{
    if a.len() != b.len() {
        return false;
    }
    let mut i: usize = 0;
    while i < a.len()
        invariant
            i <= a@.len() == b@.len(),
            a@.take(i as int) == b@.take(i as int),
        decreases a.len() - i,
    {
        if a[i] != b[i] {
            return false;
        }
        i = i + 1;
        assert(a@.take(i as int) =~= a@.take(i - 1).push(a@[i - 1]));
        assert(b@.take(i as int) =~= b@.take(i - 1).push(b@[i - 1]));
    }
    assert(a@.take(i as int) =~= a@);
    assert(b@.take(i as int) =~= b@);
    true
}

/// Whether two lists of flags are the same.
pub fn same_flags(a: &Vec<bool>, b: &Vec<bool>) -> (same: bool)
    ensures
        same == (a@ == b@),
{
    if a.len() != b.len() {
        return false;
    }
    let mut i: usize = 0;
    while i < a.len()
        invariant
            i <= a@.len() == b@.len(),
            a@.take(i as int) == b@.take(i as int),
        decreases a.len() - i,
    {
        if a[i] != b[i] {
            return false;
        }
        i = i + 1;
        assert(a@.take(i as int) =~= a@.take(i - 1).push(a@[i - 1]));
        assert(b@.take(i as int) =~= b@.take(i - 1).push(b@[i - 1]));
    }
    assert(a@.take(i as int) =~= a@);
    assert(b@.take(i as int) =~= b@);
    true
}

impl ProjectionPolicy {
    /// Each output is listed once, in rising order.
    pub open spec fn wf(self) -> bool {
        rising(self.collapsed@)
    }

    /// Nothing is folded.
    pub fn new() -> (policy: ProjectionPolicy)
        ensures
            policy.wf(),
            policy.revision == 1,
            policy.collapsed@ == Seq::<u64>::empty(),
    {
        ProjectionPolicy { revision: 1, collapsed: Vec::new() }
    }

    /// Folds the output of `zone_id`; false where it is folded already.
    pub fn collapse(&mut self, zone_id: u64) -> (changed: bool)
        requires
            old(self).wf(),
        ensures
            final(self).wf(),
            changed == !old(self)@.contains(zone_id),
            final(self)@ == old(self)@.insert(zone_id),
            final(self).revision == if changed {
                policy_revision_after(old(self).revision)
            } else {
                old(self).revision
            },
    {
        let ghost before = self.collapsed@;
        if !insert_id(&mut self.collapsed, zone_id) {
            assert(before.to_set().insert(zone_id) =~= before.to_set());
            return false;
        }
        self.revision = match self.revision.checked_add(1) {
            Some(next) => next,
            None => 1,
        };
        true
    }

    /// Unfolds the output of `zone_id`; false where it is not folded.
    pub fn expand(&mut self, zone_id: u64) -> (changed: bool)
        requires
            old(self).wf(),
        ensures
            final(self).wf(),
            changed == old(self)@.contains(zone_id),
            final(self)@ == old(self)@.remove(zone_id),
            final(self).revision == if changed {
                policy_revision_after(old(self).revision)
            } else {
                old(self).revision
            },
    {
        let slot = slot_of(&self.collapsed, zone_id);
        let ghost before = self.collapsed@;
        if slot == self.collapsed.len() || self.collapsed[slot] != zone_id {
            assert(!before.contains(zone_id));
            assert(before.to_set().remove(zone_id) =~= before.to_set());
            return false;
        }
        self.collapsed.remove(slot);
        self.revision = match self.revision.checked_add(1) {
            Some(next) => next,
            None => 1,
        };
        proof {
            let after = self.collapsed@;
            assert(after == before.remove(slot as int));
            assert(before.contains(zone_id));
            assert(after.to_set() =~= before.to_set().remove(zone_id)) by {
                assert forall|id: u64| after.contains(id) == (before.contains(id) && id
                    != zone_id) by {
                    if before.contains(id) && id != zone_id {
                        let k = choose|k: int| 0 <= k < before.len() && before[k] == id;
                        assert(after[if k < slot { k } else { k - 1 }] == id);
                    }
                    if after.contains(id) {
                        let k = choose|k: int| 0 <= k < after.len() && after[k] == id;
                        assert(before[if k < slot { k } else { k + 1 }] == id);
                    }
                }
            }
        }
        true
    }

    /// Whether nothing is folded.
    pub fn is_identity(&self) -> (yes: bool)
        ensures
            yes == (self.collapsed@.len() == 0),
    {
        self.collapsed.len() == 0
    }

    /// Whether the output of `zone_id` is to be folded.
    pub fn is_collapsed(&self, zone_id: u64) -> (yes: bool)
        requires
            self.wf(),
        ensures
            yes == self@.contains(zone_id),
    {
        let slot = slot_of(&self.collapsed, zone_id);
        let yes = slot < self.collapsed.len() && self.collapsed[slot] == zone_id;
        assert(yes ==> self.collapsed@.contains(zone_id));
        yes
    }

    /// The number of the current choice.
    pub fn revision(&self) -> (revision: u64)
        ensures
            revision == self.revision,
    {
        self.revision
    }
}

/// Folding an output that was not folded and unfolding it again gives the
/// earlier choice back.
pub proof fn collapse_expand_round_trip(before: Set<u64>, zone_id: u64)
    requires
        !before.contains(zone_id),
    ensures
        before.insert(zone_id).remove(zone_id) == before,
{
    assert(before.insert(zone_id).remove(zone_id) =~= before);
}

/// What a summary row stands for.
#[derive(Clone, Copy, Debug, PartialEq, Eq, Structural)]
pub struct SyntheticRowKey {
    pub zone_id: u64,
    pub policy_revision: u64,
}

/// What a row of a projected document is.
#[derive(Clone, Copy, Debug, PartialEq, Eq, Structural)]
pub enum ProjectedRowKind {
    /// Cells of the terminal.
    Raw,
    /// One line in place of a folded output.
    CollapsedSummary {
        key: SyntheticRowKey,
        hidden_range: FinishedOutputRange,
        /// How many rows of the document the output would take.
        hidden_rows: usize,
    },
    /// Blank space above a document shorter than the view.
    Padding,
}

/// The physical row that a row of a document shows or continues.
#[derive(Clone, Copy, Debug, PartialEq, Eq, Structural)]
pub struct RawRowSource {
    pub raw_row: RawRowId,
    pub raw_absolute_row: usize,
}

/// Consecutive cells of a view that show consecutive cells of one physical row.
#[derive(Clone, Copy, Debug, PartialEq, Eq, Structural)]
pub struct OriginSpan {
    pub display_start: DisplayPoint,
    pub raw_start: RawCellAnchor,
    pub len: usize,
}

/// What the top row of a view is held by when the document changes.
#[derive(Clone, Copy, Debug, PartialEq, Eq, Structural)]
pub enum ProjectedTopAnchor {
    RawCell(RawCellAnchor),
    RawRow(RawRowId),
    Summary { zone_id: u64, hidden_range: FinishedOutputRange },
}

/// Where a stable position is in a projected document.
#[derive(Clone, Copy, Debug, PartialEq, Eq, Structural)]
pub enum ProjectedBufferAnchorLocation {
    /// Nothing is folded: rows of the terminal are rows of the document.
    Identity,
    /// On a row of the document.
    Visible { document_row: usize },
    /// In a folded output.
    Hidden { zone_id: u64 },
    /// Nowhere.
    Unmapped,
}

/// How a view is made.
#[derive(Clone, Copy, Debug, PartialEq, Eq, Structural)]
pub enum ProjectionMode {
    Bypass,
    Identity,
    Transformed,
}

/// Everything that a view depends on.
#[derive(Clone, Copy, Debug, PartialEq, Eq, Structural)]
pub struct ProjectionCacheKey {
    pub grid_version: u64,
    pub projection_revision: u64,
    pub total_lines_scrolled: u64,
    pub row_identity_revision: u64,
    pub scrollback_len: usize,
    pub scroll_offset: usize,
    pub rows: usize,
    pub columns: usize,
    pub alt_screen: bool,
    pub mode: ProjectionMode,
}

impl ProjectionCacheKey {
    /// Whether the view shows the screen without regard to commands.
    pub fn is_bypass(&self) -> (yes: bool)
        ensures
            yes == (self.mode == ProjectionMode::Bypass),
    {
        self.mode == ProjectionMode::Bypass
    }
}

/// Everything that a projected document depends on.
pub struct ProjectionPlanKey {
    pub total_lines_scrolled: u64,
    pub row_identity_revision: u64,
    pub finished_output_revision: u64,
    pub full_screen_scroll_revision: u64,
    pub scrollback_len: usize,
    pub rows: usize,
    pub cols: usize,
    pub row_wrapped: Vec<bool>,
    pub policy_revision: u64,
    pub policy_ids: Vec<u64>,
}

/// [`ProjectionPlanKey`] as a value.
pub struct PlanKeyModel {
    pub total_lines_scrolled: u64,
    pub row_identity_revision: u64,
    pub finished_output_revision: u64,
    pub full_screen_scroll_revision: u64,
    pub scrollback_len: usize,
    pub rows: usize,
    pub cols: usize,
    pub row_wrapped: Seq<bool>,
    pub policy_revision: u64,
    pub policy_ids: Seq<u64>,
}

impl View for ProjectionPlanKey {
    type V = PlanKeyModel;

    open spec fn view(&self) -> PlanKeyModel {
        PlanKeyModel {
            total_lines_scrolled: self.total_lines_scrolled,
            row_identity_revision: self.row_identity_revision,
            finished_output_revision: self.finished_output_revision,
            full_screen_scroll_revision: self.full_screen_scroll_revision,
            scrollback_len: self.scrollback_len,
            rows: self.rows,
            cols: self.cols,
            row_wrapped: self.row_wrapped@,
            policy_revision: self.policy_revision,
            policy_ids: self.policy_ids@,
        }
    }
}

impl ProjectionPlanKey {
    /// Whether two documents depend on the same.
    pub fn same(&self, other: &ProjectionPlanKey) -> (same: bool)
        ensures
            same == (self@ == other@),
    {
        self.total_lines_scrolled == other.total_lines_scrolled && self.row_identity_revision
            == other.row_identity_revision && self.finished_output_revision
            == other.finished_output_revision && self.full_screen_scroll_revision
            == other.full_screen_scroll_revision && self.scrollback_len == other.scrollback_len
            && self.rows == other.rows && self.cols == other.cols && self.policy_revision
            == other.policy_revision && same_flags(&self.row_wrapped, &other.row_wrapped)
            && same_ids(&self.policy_ids, &other.policy_ids)
    }
}

/// Where the reader of a projected document is.
pub struct ProjectionViewState {
    pub offset_from_bottom: usize,
    pub follow_bottom: bool,
    pub top_anchor: Option<ProjectedTopAnchor>,
    pub last_plan_key: Option<Arc<ProjectionPlanKey>>,
}

impl ProjectionViewState {
    /// A reader at the bottom.
    pub fn new() -> (state: ProjectionViewState)
        ensures
            state.offset_from_bottom == 0,
            state.follow_bottom,
            state.top_anchor is None,
            state.last_plan_key is None,
    {
        ProjectionViewState {
            offset_from_bottom: 0,
            follow_bottom: true,
            top_anchor: None,
            last_plan_key: None,
        }
    }

    /// How many rows the reader is above the bottom.
    pub fn offset_from_bottom(&self) -> (offset: usize)
        ensures
            offset == self.offset_from_bottom,
    {
        self.offset_from_bottom
    }
}

/// What one end of a selection in a projected document is held by.
#[derive(Clone, Copy, Debug, PartialEq, Eq, Structural)]
pub enum ProjectedSelectionAnchor {
    Cell(RawCellAnchor),
    /// A blank row: it has an identity but no cell of its own.
    Row { row: RawRowId, column: usize },
}

/// One end of a selection in a projected document.
#[derive(Clone, Copy, Debug, PartialEq, Eq, Structural)]
pub struct ProjectedSelectionEndpoint {
    pub point: DocumentPoint,
    pub anchor: ProjectedSelectionAnchor,
}

/// A selection in a projected document.
pub struct ProjectedSelection {
    pub plan_revision: u64,
    /// The width in which the columns of the ends are given.
    pub plan_cols: usize,
    /// The outputs that were folded.
    pub hidden: Vec<u64>,
    pub anchor: ProjectedSelectionEndpoint,
    pub active: ProjectedSelectionEndpoint,
    pub mode: SelectionMode,
}

} // verus!
