//! Memoized views of the terminal.

use std::sync::Arc;
use vstd::prelude::*;

use crate::cell::TerminalCell;
use crate::grid::RawRowId;
use crate::materialize::window_rows;
use crate::plan::PlanModel;
use crate::plan::ProjectionPlan;
use crate::projected::at_most;
use crate::projection::ProjectionPlanKey;
use crate::showing::is_sound;
use crate::view::rows_view;
use crate::viewport::ProjectedViewport;
use crate::viewport::ViewportData;
use crate::words::is_uniform;

verus! {

/// The visible cells as last computed, with what they were computed for.
pub struct VisibleCellsCache {
    pub grid_version: u64,
    pub scroll_offset: usize,
    pub cells: Arc<Vec<Vec<TerminalCell>>>,
}

/// A projected document with what it was computed for.
pub struct PlanCache {
    pub key: Arc<ProjectionPlanKey>,
    pub plan: Arc<ProjectionPlan>,
}

/// Everything that a view of a projected document depends on.
pub struct TransformedViewKey {
    pub plan: Arc<ProjectionPlanKey>,
    pub projection_revision: u64,
    pub grid_version: u64,
    pub document_start: usize,
    pub viewport_rows: usize,
    pub cursor_row: RawRowId,
    pub cursor_col: usize,
}

/// A view of a projected document with what it was computed for.
pub struct TransformedViewCache {
    pub key: TransformedViewKey,
    pub viewport: ProjectedViewport,
}

/// Everything the terminal remembers of earlier view computations.
pub struct ViewCaches {
    pub visible_cells: Option<VisibleCellsCache>,
    pub viewport: Option<ProjectedViewport>,
    pub plan: Option<PlanCache>,
    pub transformed: Option<TransformedViewCache>,
    /// Number of the next plan; zero once numbers have run out.
    pub next_plan_revision: u64,
}

/// Whether the number `n` was given to a document, where `next` is the next one.
pub open spec fn is_taken(n: u64, next: u64) -> bool {
    n < next || next == 0
}

/// What a view of `height` rows of the document `plan` from row `start` on has
/// from it but for the cells.
pub open spec fn shows_window(
    plan: PlanModel,
    start: int,
    height: int,
    view: ViewportData,
) -> bool {
    &&& view.document_rows == plan.rows.len()
    &&& view.document_start == at_most(start, plan.rows.len() as int)
    &&& view.cells@.len() == height
    &&& view.row_kinds@ == Seq::new(
        height as nat,
        |r: int| window_rows(plan, start, height)[r].kind,
    )
    &&& view.effective_collapsed@ == plan.effective_collapsed
}

impl ViewCaches {
    /// Remembered rows have one width, remembered views are whole, and a
    /// remembered document is one of rows that do not share identities. A
    /// document that folds something has a number of its own, by which the
    /// remembered view of it is found.
    #[verifier::opaque]
    pub open spec fn wf(self) -> bool {
        &&& self.visible_cells matches Some(cache) ==> is_uniform(rows_view(cache.cells@))
        &&& self.viewport matches Some(viewport) ==> viewport.wf()
        &&& self.transformed matches Some(cache) ==> cache.viewport.wf()
        &&& self.plan matches Some(cache) ==> is_sound(cache.key@, cache.plan@)
        &&& self.plan matches Some(cache) ==> is_taken(
            cache.plan@.plan_revision,
            self.next_plan_revision,
        ) && (cache.plan@.plan_revision == 0 <==> cache.plan@.effective_collapsed.len() == 0)
        &&& self.transformed matches Some(cache) ==> cache.key.projection_revision != 0 && is_taken(
            cache.key.projection_revision,
            self.next_plan_revision,
        )
        &&& self.plan is Some && self.transformed is Some && self.plan->0.plan@.plan_revision
            == self.transformed->0.key.projection_revision ==> shows_window(
            self.plan->0.plan@,
            self.transformed->0.key.document_start as int,
            self.transformed->0.key.viewport_rows as int,
            *self.transformed->0.viewport.data,
        )
    }

    /// The caches after rows moved or changed identity: only the
    /// full-document plan survives.
    pub open spec fn views_dropped(self) -> ViewCaches {
        ViewCaches { visible_cells: None, viewport: None, transformed: None, ..self }
    }

    /// The caches after the owners of finished output changed.
    pub open spec fn plans_dropped(self) -> ViewCaches {
        ViewCaches { plan: None, transformed: None, ..self }
    }

    /// Whether nothing is remembered.
    pub open spec fn is_empty(self) -> bool {
        &&& self.visible_cells is None
        &&& self.viewport is None
        &&& self.plan is None
        &&& self.transformed is None
        &&& self.next_plan_revision == 1
    }

    /// Nothing remembered.
    pub fn new() -> (caches: ViewCaches)
        ensures
            caches.is_empty(),
            caches.wf(),
    {
        proof {
            reveal(ViewCaches::wf);
        }
        ViewCaches {
            visible_cells: None,
            viewport: None,
            plan: None,
            transformed: None,
            next_plan_revision: 1,
        }
    }

    /// Forgets every view of the current rows.
    pub fn drop_views(&mut self)
        ensures
            *final(self) == old(self).views_dropped(),
            old(self).wf() ==> final(self).wf(),
    {
        proof {
            reveal(ViewCaches::wf);
        }
        self.visible_cells = None;
        self.viewport = None;
        self.transformed = None;
    }

    /// Forgets what depends on the owners of finished output.
    pub fn drop_plans(&mut self)
        ensures
            *final(self) == old(self).plans_dropped(),
            old(self).wf() ==> final(self).wf(),
    {
        proof {
            reveal(ViewCaches::wf);
        }
        self.plan = None;
        self.transformed = None;
    }
}

} // verus!
