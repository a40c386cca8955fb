//! Brings positions into view in projected documents.

use std::sync::Arc;
use vstd::prelude::*;

use crate::document::anchors_round_trip;
use crate::document::lemma_first_with_id;
use crate::document::RawCellAnchor;
use crate::geometry::display_of;
use crate::lookup::row_for_cell;
use crate::lookup::summary_for;
use crate::lookup::summary_position;
use crate::plan::PlanModel;
use crate::plan::ProjectionPlan;
use crate::planning::key_is_current;
use crate::planning::plan_key;
use crate::planning::plan_requested;
use crate::planning::value_of;
use crate::projected::at_most;
use crate::projected::excess;
use crate::projected::last_key;
use crate::projected::retained_row;
use crate::projection::DisplayPoint;
use crate::projection::PlanKeyModel;
use crate::projection::ProjectedBufferAnchorLocation;
use crate::projection::ProjectedRowKind;
use crate::projection::ProjectedTopAnchor;
use crate::projection::ProjectionPlanKey;
use crate::projection::ProjectionPolicy;
use crate::projection::ProjectionViewState;
use crate::provenance::BufferAnchor;
use crate::state::TerminalState;
use crate::viewport::ProjectedViewport;

verus! {

/// The cell of a physical row at a stable position, while it is retained.
pub open spec fn anchored_cell(state: TerminalState, anchor: BufferAnchor) -> Option<RawCellAnchor> {
    match state.absolute_of_line(anchor.line_id) {
        Some(row) => Some(
            RawCellAnchor { row_id: state.document()[row].id, column: anchor.column },
        ),
        None => None,
    }
}

/// The stable position of a cell of a physical row, or of the end of the row,
/// while the row is retained and has an identity.
pub open spec fn position_of_cell(state: TerminalState, cell: RawCellAnchor) -> Option<
    BufferAnchor,
> {
    match retained_row(state, cell.row_id) {
        Some(row) => if cell.column <= state.document()[row].cells.len() {
            Some(BufferAnchor { line_id: state.line_of_absolute(row), column: cell.column })
        } else {
            None
        },
        None => None,
    }
}

/// `post` is a reader of the document `plan` of whom row `row` is in view,
/// held by `anchor`.
pub open spec fn reader_at(
    plan: PlanModel,
    key: PlanKeyModel,
    height: int,
    row: int,
    anchor: ProjectedTopAnchor,
    post: ProjectionViewState,
) -> bool {
    let limit = excess(plan.rows.len() as int, height);
    &&& post.offset_from_bottom == limit - at_most(row, limit)
    &&& !post.follow_bottom
    &&& post.top_anchor == Some(anchor)
    &&& last_key(post) == Some(key)
}

/// Where a stable position is in the document `plan`.
pub open spec fn located(
    plan: PlanModel,
    policy_revision: u64,
    anchor: BufferAnchor,
    cell: RawCellAnchor,
) -> ProjectedBufferAnchorLocation {
    match summary_for(plan, anchor.line_id, anchor.column) {
        Some(row) => match plan.rows[row].kind {
            ProjectedRowKind::CollapsedSummary { key, .. } => if key.policy_revision
                == policy_revision {
                ProjectedBufferAnchorLocation::Hidden { zone_id: key.zone_id }
            } else {
                ProjectedBufferAnchorLocation::Unmapped
            },
            _ => ProjectedBufferAnchorLocation::Unmapped,
        },
        None => match row_for_cell(plan.rows, cell) {
            Some(row) => ProjectedBufferAnchorLocation::Visible { document_row: row as usize },
            None => ProjectedBufferAnchorLocation::Unmapped,
        },
    }
}

/// `location` is where a stable position is in the document folded by the
/// outputs `ids`. A visible position is brought into the reader's view; nothing
/// else moves the reader.
pub open spec fn position_revealed(
    pre: TerminalState,
    policy_revision: u64,
    ids: Seq<u64>,
    pre_view: ProjectionViewState,
    anchor: BufferAnchor,
    post: TerminalState,
    post_view: ProjectionViewState,
    location: ProjectedBufferAnchorLocation,
) -> bool {
    if ids.len() == 0 || pre.use_alt_buffer {
        &&& location == ProjectedBufferAnchorLocation::Identity
        &&& post == pre
        &&& post_view == pre_view
    } else {
        match anchored_cell(pre, anchor) {
            None => {
                &&& location == ProjectedBufferAnchorLocation::Unmapped
                &&& post == pre
                &&& post_view == pre_view
            },
            Some(cell) => {
                let key = plan_key(pre, pre.grid.cols, policy_revision, ids);
                exists|plan: Option<PlanModel>|
                    {
                        &&& #[trigger] plan_requested(
                            pre,
                            pre.grid.cols,
                            policy_revision,
                            ids,
                            post,
                            plan,
                        )
                        &&& match plan {
                            Some(plan) if plan.plan_revision != 0 && key_is_current(pre, key) => {
                                &&& location == located(plan, policy_revision, anchor, cell)
                                &&& match location {
                                    ProjectedBufferAnchorLocation::Visible { document_row } => reader_at(
                                        plan,
                                        key,
                                        pre.rows(),
                                        document_row as int,
                                        ProjectedTopAnchor::RawCell(cell),
                                        post_view,
                                    ),
                                    _ => post_view == pre_view,
                                }
                            },
                            _ => {
                                &&& location == ProjectedBufferAnchorLocation::Unmapped
                                &&& post_view == pre_view
                            },
                        }
                    }
            },
        }
    }
}

/// `revealed` tells whether the summary of an output has been brought into the
/// reader's view.
pub open spec fn summary_revealed(
    pre: TerminalState,
    policy_revision: u64,
    ids: Seq<u64>,
    pre_view: ProjectionViewState,
    zone_id: u64,
    post: TerminalState,
    post_view: ProjectionViewState,
    revealed: bool,
) -> bool {
    if pre.use_alt_buffer || !ids.contains(zone_id) {
        &&& !revealed
        &&& post == pre
        &&& post_view == pre_view
    } else {
        let key = plan_key(pre, pre.grid.cols, policy_revision, ids);
        exists|plan: Option<PlanModel>|
            {
                &&& #[trigger] plan_requested(
                    pre,
                    pre.grid.cols,
                    policy_revision,
                    ids,
                    post,
                    plan,
                )
                &&& revealed == (plan is Some && current_summary(
                    plan->0,
                    policy_revision,
                    zone_id,
                ) is Some)
                &&& if revealed {
                    let row = current_summary(plan->0, policy_revision, zone_id)->0;
                    reader_at(
                        plan->0,
                        key,
                        pre.rows(),
                        row,
                        ProjectedTopAnchor::Summary {
                            zone_id,
                            hidden_range: plan->0.rows[row].kind->hidden_range,
                        },
                        post_view,
                    )
                } else {
                    post_view == pre_view
                }
            }
    }
}

/// The row of the summary of an output, where it was made for the given choice
/// of outputs.
pub open spec fn current_summary(plan: PlanModel, policy_revision: u64, zone_id: u64) -> Option<
    int,
> {
    match summary_position(plan.rows, zone_id, 0) {
        Some(row) => if plan.rows[row].kind->key.policy_revision == policy_revision {
            Some(row)
        } else {
            None
        },
        None => None,
    }
}

impl TerminalState {
    /// The cell of a view that shows a stable position.
    pub fn buffer_anchor_to_projected(&self, view: &ProjectedViewport, anchor: BufferAnchor) -> (
    point: Option<DisplayPoint>)
        requires
            self.core_wf(),
        ensures
            point == match anchored_cell(*self, anchor) {
                Some(cell) => display_of(view.data.origins@, cell),
                None => None,
            },
    {
        match self.find_anchored_cell(anchor) {
            Some(cell) => view.display_point_for(cell),
            None => None,
        }
    }

    /// The stable position of a cell of a physical row, or of the end of the
    /// row, while the row is retained and has an identity.
    pub fn raw_cell_anchor_to_buffer_anchor(&self, anchor: RawCellAnchor) -> (position: Option<
        BufferAnchor,
    >)
        requires
            self.core_wf(),
        ensures
            position == position_of_cell(*self, anchor),
    {
        let absolute: usize = match self.retained_absolute_for_raw(anchor.row_id) {
            Some(absolute) => absolute,
            None => return None,
        };
        match self.retained_raw_row(absolute) {
            Some((_, width)) => if anchor.column <= width {
                self.absolute_to_buffer_anchor((absolute, anchor.column))
            } else {
                None
            },
            None => None,
        }
    }

    /// The cell of a physical row at a stable position, while it is retained.
    fn find_anchored_cell(&self, anchor: BufferAnchor) -> (cell: Option<RawCellAnchor>)
        requires
            self.core_wf(),
        ensures
            cell == anchored_cell(*self, anchor),
    {
        match self.buffer_anchor_to_absolute(anchor) {
            Some((row, column)) => match self.raw_row_id_at_absolute(row) {
                Some(row_id) => Some(RawCellAnchor { row_id, column }),
                None => None,
            },
            None => None,
        }
    }

    /// Brings row `row` of a document into the reader's view.
    fn put_reader_at(
        &self,
        plan: &ProjectionPlan,
        key: Arc<ProjectionPlanKey>,
        row: usize,
        anchor: ProjectedTopAnchor,
        view_state: &mut ProjectionViewState,
    )
        requires
            self.core_wf(),
        ensures
            reader_at(plan@, key@, self.rows(), row as int, anchor, *final(view_state)),
    {
        let height: usize = self.grid.rows();
        let total: usize = plan.document_rows();
        let limit: usize = if total > height {
            total - height
        } else {
            0
        };
        view_state.offset_from_bottom = limit - if row < limit {
            row
        } else {
            limit
        };
        view_state.follow_bottom = false;
        view_state.top_anchor = Some(anchor);
        view_state.last_plan_key = Some(key);
    }

    /// Finds a stable position in the document folded by `policy` and brings
    /// it into the reader's view, where it is visible.
    pub fn reveal_buffer_anchor_in_projection(
        &mut self,
        policy: &ProjectionPolicy,
        view_state: &mut ProjectionViewState,
        anchor: BufferAnchor,
    ) -> (location: ProjectedBufferAnchorLocation)
        requires
            old(self).core_wf(),
        ensures
            final(self).core_wf(),
            position_revealed(
                *old(self),
                policy.revision,
                policy.collapsed@,
                *old(view_state),
                anchor,
                *final(self),
                *final(view_state),
                location,
            ),
    {
        if policy.is_identity() || self.use_alt_buffer {
            return ProjectedBufferAnchorLocation::Identity;
        }
        let cell = match self.find_anchored_cell(anchor) {
            Some(cell) => cell,
            None => return ProjectedBufferAnchorLocation::Unmapped,
        };
        let cols: usize = self.grid.row_len();
        let key = Arc::new(self.projection_plan_cache_key(cols, policy));
        let current = self.projection_plan_key_matches_current_source(&key);
        let found = self.cached_collapsed_projection_plan(cols, policy);
        assert(plan_requested(
            *old(self),
            old(self).grid.cols,
            policy.revision,
            policy.collapsed@,
            *self,
            value_of(found),
        ));
        assert(self.rows() == old(self).rows());
        let plan = match found {
            Some(plan) => plan,
            None => return ProjectedBufferAnchorLocation::Unmapped,
        };
        if plan.plan_revision == 0 || !current {
            return ProjectedBufferAnchorLocation::Unmapped;
        }
        if let Some(row) = plan.summary_owning(anchor.line_id, anchor.column) {
            assert(plan@.rows[row as int] == plan.rows@[row as int].model(plan.cols as int));
            return match plan.rows[row].kind {
                ProjectedRowKind::CollapsedSummary { key, .. } => {
                    if key.policy_revision == policy.revision {
                        ProjectedBufferAnchorLocation::Hidden { zone_id: key.zone_id }
                    } else {
                        ProjectedBufferAnchorLocation::Unmapped
                    }
                },
                _ => ProjectedBufferAnchorLocation::Unmapped,
            };
        }
        match plan.raw_cell_document_row(cell) {
            Some(row) => {
                self.put_reader_at(
                    &plan,
                    key,
                    row,
                    ProjectedTopAnchor::RawCell(cell),
                    view_state,
                );
                ProjectedBufferAnchorLocation::Visible { document_row: row }
            },
            None => ProjectedBufferAnchorLocation::Unmapped,
        }
    }

    /// Brings the summary of a folded output into the reader's view.
    pub fn reveal_collapsed_summary(
        &mut self,
        policy: &ProjectionPolicy,
        view_state: &mut ProjectionViewState,
        zone_id: u64,
    ) -> (revealed: bool)
        requires
            old(self).core_wf(),
            policy.wf(),
        ensures
            final(self).core_wf(),
            summary_revealed(
                *old(self),
                policy.revision,
                policy.collapsed@,
                *old(view_state),
                zone_id,
                *final(self),
                *final(view_state),
                revealed,
            ),
    {
        if self.use_alt_buffer || !policy.is_collapsed(zone_id) {
            return false;
        }
        let cols: usize = self.grid.row_len();
        let key = Arc::new(self.projection_plan_cache_key(cols, policy));
        let found = self.cached_collapsed_projection_plan(cols, policy);
        assert(plan_requested(
            *old(self),
            old(self).grid.cols,
            policy.revision,
            policy.collapsed@,
            *self,
            value_of(found),
        ));
        assert(self.rows() == old(self).rows());
        let plan = match found {
            Some(plan) => plan,
            None => return false,
        };
        let row: usize = match plan.summary_document_row(zone_id) {
            Some(row) => row,
            None => return false,
        };
        assert(plan@.rows[row as int] == plan.rows@[row as int].model(plan.cols as int));
        match plan.rows[row].kind {
            ProjectedRowKind::CollapsedSummary { key: summary, hidden_range, .. } => {
                if summary.policy_revision != policy.revision {
                    return false;
                }
                self.put_reader_at(
                    &plan,
                    key,
                    row,
                    ProjectedTopAnchor::Summary { zone_id, hidden_range },
                    view_state,
                );
                true
            },
            _ => false,
        }
    }
}

/// The stable position of a cell leads back to the cell, as long as line
/// numbers have not run into the end of `u64`.
pub proof fn cells_and_positions_round_trip(state: TerminalState, cell: RawCellAnchor)
    requires
        state.core_wf(),
        state.total_lines_scrolled + state.rows() <= u64::MAX,
        position_of_cell(state, cell) is Some,
    ensures
        anchored_cell(state, position_of_cell(state, cell)->0) == Some(cell),
{
    lemma_first_with_id(state.document(), cell.row_id);
    anchors_round_trip(state, retained_row(state, cell.row_id)->0);
}

} // verus!
