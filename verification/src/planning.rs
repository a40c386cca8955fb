//! Makes full-document plans, advances them along with the output, and
//! remembers the last one.

use std::sync::Arc;
use vstd::prelude::*;

use crate::advancing::lemma_advance_is_sound;
use crate::caches::is_taken;
use crate::caches::PlanCache;
use crate::caches::ViewCaches;
use crate::collapses::resolved;
use crate::fold_laws::cells_once;
use crate::folding::all_folded;
use crate::folding::effective;
use crate::folding::fold;
use crate::grid::Line;
use crate::grid::RawRowId;
use crate::layout::append_rows;
use crate::layout::lay_history;
use crate::layout::lemma_models_add;
use crate::plan::history_rows;
use crate::plan::identity_rows;
use crate::plan::row_models;
use crate::plan::screen_rows;
use crate::plan::PlanModel;
use crate::plan::PlanRow;
use crate::plan::PlanRowModel;
use crate::plan::ProjectionPlan;
use crate::plan::ResolvedCollapse;
use crate::projection::copy_ids;
use crate::projection::insert_id;
use crate::projection::rising;
use crate::projection::same_ids;
use crate::projection::PlanKeyModel;
use crate::projection::ProjectedRowKind;
use crate::projection::ProjectionPlanKey;
use crate::projection::ProjectionPolicy;
use crate::provenance::revision_after;
use crate::showing::is_sound;
use crate::showing::lemma_fresh_is_sound;
use crate::showing::lemma_sound_renumbered;
use crate::showing::sound_documents_show_cells_once;
use crate::state::TerminalState;
use crate::view::share;

verus! {

/// Everything that a document folded by the outputs `ids` depends on.
pub open spec fn plan_key(
    state: TerminalState,
    cols: usize,
    policy_revision: u64,
    ids: Seq<u64>,
) -> PlanKeyModel {
    PlanKeyModel {
        total_lines_scrolled: state.total_lines_scrolled,
        row_identity_revision: state.row_identity_revision,
        finished_output_revision: state.provenance.revision,
        full_screen_scroll_revision: state.full_screen_scroll_revision,
        scrollback_len: state.scrollback@.len() as usize,
        rows: state.grid@.len() as usize,
        cols,
        row_wrapped: Seq::new(state.grid@.len(), |r: int| state.grid@[r].wrapped),
        policy_revision,
        policy_ids: ids,
    }
}

/// How wide a document for `cols` columns is: it has at least one.
pub open spec fn document_width(cols: usize) -> usize {
    if cols == 0 {
        1
    } else {
        cols
    }
}

/// Whether a document depends on rows as they are now.
pub open spec fn key_is_current(state: TerminalState, key: PlanKeyModel) -> bool {
    &&& state.provenance.revision != 0
    &&& key.total_lines_scrolled == state.total_lines_scrolled
    &&& key.row_identity_revision == state.row_identity_revision
    &&& key.finished_output_revision == state.provenance.revision
    &&& key.scrollback_len == state.scrollback@.len()
    &&& key.rows == state.grid@.len()
    &&& key.cols == state.cols()
    &&& key.row_wrapped == Seq::new(state.grid@.len(), |r: int| state.grid@[r].wrapped)
}

/// Identities of rows.
pub open spec fn ids_of(lines: Seq<Line>) -> Seq<RawRowId> {
    Seq::new(lines.len(), |r: int| lines[r].id)
}

/// Which rows continue on the next one.
pub open spec fn wraps_of(lines: Seq<Line>) -> Seq<bool> {
    Seq::new(lines.len(), |r: int| lines[r].wrapped)
}

/// The document without anything folded.
pub open spec fn plain_rows(state: TerminalState, cols: usize) -> Seq<PlanRowModel> {
    identity_rows(state.history(), state.grid@, state.first_line_id() as u64, cols as int)
}

/// `plan` is the document of the current rows with the outputs `collapses`
/// folded.
pub open spec fn is_plan_of(
    state: TerminalState,
    cols: usize,
    collapses: Seq<ResolvedCollapse>,
    policy_revision: u64,
    plan: PlanModel,
) -> bool {
    let plain = plain_rows(state, cols);
    let n = collapses.len() as int;
    &&& plan.cols == cols
    &&& plan.rows == all_folded(plain, collapses, n, policy_revision, cols as int)
    &&& plan.first_line == state.first_line_id()
    &&& plan.history_ids == ids_of(state.history())
    &&& plan.history_wraps == wraps_of(state.history())
    &&& plan.collapses == collapses
    &&& rising(plan.effective_collapsed)
    &&& plan.effective_collapsed.to_set() == effective(
        plain,
        collapses,
        n,
        policy_revision,
        cols as int,
    )
}

/// How many rows from the first on show nothing but lines before `limit`.
pub open spec fn leading(rows: Seq<PlanRowModel>, limit: u64, from: int) -> int
    decreases rows.len() - from,
{
    if from < rows.len() && rows[from].kind is Raw && rows[from].source is Some
        && rows[from].source->0.line < limit {
        leading(rows, limit, from + 1)
    } else {
        from
    }
}

/// Whether nothing but whole-screen scrolling lies between the document `plan`
/// for `old_key` and the current rows, so that the document can be advanced.
pub open spec fn can_advance(
    state: TerminalState,
    old_key: PlanKeyModel,
    new_key: PlanKeyModel,
    plan: PlanModel,
) -> bool {
    let appended = new_key.total_lines_scrolled - old_key.total_lines_scrolled;
    let old_first = old_key.total_lines_scrolled - old_key.scrollback_len;
    let expected = old_key.scrollback_len + appended;
    let evicted = expected - new_key.scrollback_len;
    let boundary = if new_key.scrollback_len > appended {
        new_key.scrollback_len - appended - 1
    } else {
        0
    };
    &&& 0 < appended <= usize::MAX
    &&& old_first >= 0
    &&& old_key.finished_output_revision != 0
    &&& old_key.full_screen_scroll_revision != 0
    &&& new_key.full_screen_scroll_revision != 0
    &&& new_key.full_screen_scroll_revision - old_key.full_screen_scroll_revision == appended
    &&& new_key.row_identity_revision - old_key.row_identity_revision == 2 * appended
    &&& old_key.finished_output_revision == new_key.finished_output_revision
    &&& old_key.policy_revision == new_key.policy_revision
    &&& old_key.policy_ids == new_key.policy_ids
    &&& old_key.cols == new_key.cols
    &&& plan.cols == document_width(old_key.cols)
    &&& old_key.rows == new_key.rows
    &&& plan.history_ids.len() == plan.history_wraps.len() == old_key.scrollback_len
    &&& plan.first_line == old_first
    &&& !old_key.row_wrapped.contains(true)
    &&& !new_key.row_wrapped.contains(true)
    &&& old_key.scrollback_len > 0 && boundary < state.history().len()
        ==> !state.history()[boundary].wrapped
    &&& expected <= usize::MAX
    &&& 0 <= evicted <= old_key.scrollback_len
    &&& evicted > 0 ==> !plan.history_wraps[evicted - 1]
    &&& leading(plan.rows, (old_first + evicted) as u64, 0) + old_key.rows <= plan.rows.len()
    &&& forall|i: int|
        0 <= i < plan.collapses.len() ==> old_first + evicted <= (
        #[trigger] plan.collapses[i]).start_line && plan.collapses[i].end_line
            < old_key.total_lines_scrolled
    &&& forall|i: int|
        0 <= i < old_key.scrollback_len - evicted ==> (#[trigger] state.history()[i]).id
            == plan.history_ids[evicted + i] && state.history()[i].wrapped
            == plan.history_wraps[evicted + i]
    &&& new_key.total_lines_scrolled + new_key.rows <= u64::MAX
    &&& resolved(state, new_key.policy_ids) == plan.collapses
}

/// The rows of the document `plan` for `old_key`, advanced to the current
/// rows: the lines that left are gone, those that arrived stand before the
/// screen.
pub open spec fn advanced_rows(
    state: TerminalState,
    old_key: PlanKeyModel,
    plan: PlanModel,
) -> Seq<PlanRowModel> {
    let appended = state.total_lines_scrolled - old_key.total_lines_scrolled;
    let first = state.first_line_id() as u64;
    let len = state.history().len() as int;
    plan.rows.subrange(leading(plan.rows, first, 0), plan.rows.len() - old_key.rows) + (
    history_rows(state.history(), first, len - appended, len, plan.cols as int) + screen_rows(
        state.grid@,
        state.total_lines_scrolled,
        plan.cols as int,
    ))
}

/// The document `plan` for `old_key`, advanced to the current rows.
pub open spec fn advanced(state: TerminalState, old_key: PlanKeyModel, plan: PlanModel) -> PlanModel {
    PlanModel {
        rows: advanced_rows(state, old_key, plan),
        first_line: state.first_line_id() as u64,
        history_ids: ids_of(state.history()),
        history_wraps: wraps_of(state.history()),
        ..plan
    }
}

/// What a plan is, where there is one.
pub open spec fn value_of(plan: Option<Arc<ProjectionPlan>>) -> Option<PlanModel> {
    match plan {
        Some(plan) => Some(plan@),
        None => None,
    }
}

/// The number after `n`; zero, once reached, is final.
pub open spec fn next_plan_number(n: u64) -> u64 {
    revision_after(n, 1)
}

/// `post` is `pre` with `plan` remembered, if any, and the given next number.
pub open spec fn plan_remembered(
    pre: TerminalState,
    key: PlanKeyModel,
    plan: Option<PlanModel>,
    next: u64,
    post: TerminalState,
) -> bool {
    &&& match (plan, post.caches.plan) {
        (Some(plan), Some(cache)) => cache.key@ == key && cache.plan@ == plan,
        (None, None) => true,
        _ => false,
    }
    &&& post.caches.next_plan_revision == next
    &&& post.caches == ViewCaches {
        plan: post.caches.plan,
        next_plan_revision: post.caches.next_plan_revision,
        ..pre.caches
    }
    &&& post == TerminalState { caches: post.caches, ..pre }
}

/// `post` is `pre` with a freshly made or advanced `plan` remembered, and
/// `result` is that plan. A plan that folds nothing is remembered but not
/// handed out, and one that would fold something gets a number.
pub open spec fn plan_adopted(
    pre: TerminalState,
    key: PlanKeyModel,
    plan: PlanModel,
    post: TerminalState,
    result: Option<PlanModel>,
) -> bool {
    let number = pre.caches.next_plan_revision;
    if plan.effective_collapsed.len() == 0 {
        &&& plan_remembered(pre, key, Some(plan), number, post)
        &&& result is None
    } else if number == 0 {
        &&& plan_remembered(pre, key, None, number, post)
        &&& result is None
    } else {
        let numbered = PlanModel { plan_revision: number, ..plan };
        &&& plan_remembered(pre, key, Some(numbered), next_plan_number(number), post)
        &&& result == Some(numbered)
    }
}

/// The remembered document serves as it is.
pub open spec fn plan_hit(state: TerminalState, key: PlanKeyModel) -> bool {
    match state.caches.plan {
        Some(cache) => state.provenance.revision != 0 && cache.key@ == key,
        None => false,
    }
}

/// The remembered document can be advanced.
pub open spec fn plan_advances(state: TerminalState, key: PlanKeyModel) -> bool {
    match state.caches.plan {
        Some(cache) => !plan_hit(state, key) && can_advance(state, cache.key@, key, cache.plan@)
            && (cache.plan@.effective_collapsed.len() == 0 || state.caches.next_plan_revision
            != 0),
        None => false,
    }
}

/// `post` is `pre` after a request for the document folded by the outputs
/// `ids`, and `result` is what comes of the request: the remembered document,
/// the remembered one advanced, or a new one. Nothing comes of it where nothing
/// would be folded.
pub open spec fn plan_requested(
    pre: TerminalState,
    cols: usize,
    policy_revision: u64,
    ids: Seq<u64>,
    post: TerminalState,
    result: Option<PlanModel>,
) -> bool {
    let key = plan_key(pre, cols, policy_revision, ids);
    if plan_hit(pre, key) {
        let plan = pre.caches.plan->0.plan@;
        &&& post == pre
        &&& result == if plan.effective_collapsed.len() == 0 {
            None
        } else {
            Some(plan)
        }
    } else if plan_advances(pre, key) {
        plan_adopted(pre, key, advance_of(pre, key), post, result)
    } else {
        let collapses = resolved(pre, ids);
        if collapses.len() == 0 {
            &&& plan_remembered(pre, key, None, pre.caches.next_plan_revision, post)
            &&& result is None
        } else {
            exists|plan: PlanModel|
                {
                    &&& is_plan_of(
                        pre,
                        document_width(cols),
                        collapses,
                        policy_revision,
                        plan,
                    )
                    &&& plan.plan_revision == 0
                    &&& plan.incremental_from is None
                    &&& plan.incremental_appended_rows == 0
                    &&& #[trigger] plan_adopted(pre, key, plan, post, result)
                }
        }
    }
}

/// Whether any of the flags is set.
fn any_set(flags: &Vec<bool>) -> (yes: bool)
    ensures
        yes == flags@.contains(true),
{
    let mut i: usize = 0;
    while i < flags.len()
        invariant
            i <= flags@.len(),
            forall|k: int| 0 <= k < i ==> !(#[trigger] flags@[k]),
        decreases flags.len() - i,
    {
        if flags[i] {
            assert(flags@[i as int] == true);
            return true;
        }
        i = i + 1;
    }
    false
}

/// Whether a row shows cells of the terminal and begins on a line before
/// `limit`.
fn begins_before(row: &PlanRow, limit: u64) -> (yes: bool)
    ensures
        yes == (row.kind is Raw && row.source is Some && row.source->0.line < limit),
{
    match (row.kind, row.source) {
        (ProjectedRowKind::Raw, Some(source)) => source.line < limit,
        _ => false,
    }
}

impl ProjectionPlan {
    /// How many rows from the first on begin on lines before `limit`.
    fn front_rows_before(&self, limit: u64) -> (count: usize)
        ensures
            count == leading(self@.rows, limit, 0),
            count <= self@.rows.len(),
    {
        let ghost rows = self@.rows;
        let mut k: usize = 0;
        while k < self.rows.len() && begins_before(&self.rows[k], limit)
            invariant
                k <= self.rows@.len(),
                rows == self@.rows,
                leading(rows, limit, 0) == leading(rows, limit, k as int),
            decreases self.rows.len() - k,
        {
            k = k + 1;
        }
        k
    }

    /// Whether all that was to be folded lies in the lines `from..to`.
    fn folds_lie_within(&self, from: u64, to: u64) -> (yes: bool)
        ensures
            yes == (forall|i: int|
                0 <= i < self@.collapses.len() ==> from <= (
                #[trigger] self@.collapses[i]).start_line && self@.collapses[i].end_line < to),
    {
        let mut i: usize = 0;
        while i < self.collapses.len()
            invariant
                i <= self.collapses@.len(),
                forall|n: int|
                    0 <= n < i ==> from <= (#[trigger] self.collapses@[n]).start_line
                        && self.collapses@[n].end_line < to,
            decreases self.collapses.len() - i,
        {
            if self.collapses[i].start_line < from || self.collapses[i].end_line >= to {
                assert(self@.collapses[i as int] == self.collapses@[i as int]);
                return false;
            }
            i = i + 1;
        }
        true
    }
}

/// Whether the same is to be folded.
fn same_collapses(a: &Vec<ResolvedCollapse>, b: &Vec<ResolvedCollapse>) -> (same: bool)
    ensures
        same == (a@ == b@),
{
    if a.len() != b.len() {
        return false;
    }
    let mut i: usize = 0;
    while i < a.len()
        invariant
            i <= a@.len() == b@.len(),
            forall|k: int| 0 <= k < i ==> #[trigger] a@[k] == b@[k],
        decreases a.len() - i,
    {
        if a[i] != b[i] {
            return false;
        }
        i = i + 1;
    }
    assert(a@ =~= b@);
    true
}

/// Copies what was to be folded.
fn copy_collapses(list: &Vec<ResolvedCollapse>) -> (copied: Vec<ResolvedCollapse>)
    ensures
        copied@ == list@,
{
    let mut copied: Vec<ResolvedCollapse> = Vec::new();
    let mut i: usize = 0;
    while i < list.len()
        invariant
            i <= list@.len(),
            copied@ == list@.take(i as int),
        decreases list.len() - i,
    {
        copied.push(list[i]);
        i = i + 1;
        assert(copied@ =~= list@.take(i as int));
    }
    assert(list@.take(i as int) =~= list@);
    copied
}

impl TerminalState {
    /// Everything that a document folded by `policy` depends on.
    pub fn projection_plan_cache_key(&self, cols: usize, policy: &ProjectionPolicy) -> (key:
        ProjectionPlanKey)
        requires
            self.core_wf(),
        ensures
            key@ == plan_key(*self, cols, policy.revision, policy.collapsed@),
    {
        let mut row_wrapped: Vec<bool> = Vec::new();
        let ghost all = Seq::new(self.grid@.len(), |r: int| self.grid@[r].wrapped);
        let mut r: usize = 0;
        while r < self.grid.rows()
            invariant
                self.core_wf(),
                r <= self.grid@.len(),
                all == Seq::new(self.grid@.len(), |r: int| self.grid@[r].wrapped),
                row_wrapped@ == all.take(r as int),
            decreases self.grid@.len() - r,
        {
            row_wrapped.push(self.grid.row_wrapped(r));
            r = r + 1;
            assert(row_wrapped@ =~= all.take(r as int));
        }
        assert(all.take(r as int) =~= all);
        ProjectionPlanKey {
            total_lines_scrolled: self.total_lines_scrolled,
            row_identity_revision: self.row_identity_revision,
            finished_output_revision: self.provenance.revision,
            full_screen_scroll_revision: self.full_screen_scroll_revision,
            scrollback_len: self.scrollback.len(),
            rows: self.grid.rows(),
            cols,
            row_wrapped,
            policy_revision: policy.revision,
            policy_ids: copy_ids(&policy.collapsed),
        }
    }

    /// Whether a document depends on rows as they are now.
    pub fn projection_plan_key_matches_current_source(&self, key: &ProjectionPlanKey) -> (yes: bool)
        requires
            self.core_wf(),
        ensures
            yes == key_is_current(*self, key@),
    {
        if self.provenance.revision == 0 || key.total_lines_scrolled != self.total_lines_scrolled
            || key.row_identity_revision != self.row_identity_revision
            || key.finished_output_revision != self.provenance.revision || key.scrollback_len
            != self.scrollback.len() || key.rows != self.grid.rows() || key.cols
            != self.grid.row_len() || key.row_wrapped.len() != self.grid.rows() {
            return false;
        }
        let ghost all = Seq::new(self.grid@.len(), |r: int| self.grid@[r].wrapped);
        let mut r: usize = 0;
        while r < self.grid.rows()
            invariant
                self.core_wf(),
                r <= self.grid@.len(),
                key.row_wrapped@.len() == self.grid@.len(),
                all == Seq::new(self.grid@.len(), |r: int| self.grid@[r].wrapped),
                forall|k: int| 0 <= k < r ==> #[trigger] key.row_wrapped@[k] == all[k],
            decreases self.grid@.len() - r,
        {
            if key.row_wrapped[r] != self.grid.row_wrapped(r) {
                assert(key@.row_wrapped[r as int] != all[r as int]);
                return false;
            }
            r = r + 1;
        }
        assert(key.row_wrapped@ =~= all);
        true
    }

    /// Identities of the history rows.
    fn history_ids(&self) -> (ids: Vec<RawRowId>)
        requires
            self.core_wf(),
        ensures
            ids@ == ids_of(self.history()),
    {
        let ghost all = ids_of(self.history());
        let mut ids: Vec<RawRowId> = Vec::new();
        let mut r: usize = 0;
        while r < self.scrollback.len()
            invariant
                r <= self.scrollback@.len(),
                all == ids_of(self.history()),
                ids@ == all.take(r as int),
            decreases self.scrollback@.len() - r,
        {
            let line = &self.scrollback[r];
            assert(self.history()[r as int] == line@);
            ids.push(line.row_id);
            r = r + 1;
            assert(ids@ =~= all.take(r as int));
        }
        assert(all.take(r as int) =~= all);
        ids
    }

    /// Which of the history rows continue on the next row.
    fn history_wraps(&self) -> (flags: Vec<bool>)
        requires
            self.core_wf(),
        ensures
            flags@ == wraps_of(self.history()),
    {
        let ghost all = wraps_of(self.history());
        let mut flags: Vec<bool> = Vec::new();
        let mut r: usize = 0;
        while r < self.scrollback.len()
            invariant
                r <= self.scrollback@.len(),
                all == wraps_of(self.history()),
                flags@ == all.take(r as int),
            decreases self.scrollback@.len() - r,
        {
            let line = &self.scrollback[r];
            assert(self.history()[r as int] == line@);
            flags.push(line.is_wrapped);
            r = r + 1;
            assert(flags@ =~= all.take(r as int));
        }
        assert(all.take(r as int) =~= all);
        flags
    }

    /// The document of the current rows with the outputs `collapses` folded.
    pub fn build_plan(
        &self,
        cols: usize,
        collapses: Vec<ResolvedCollapse>,
        policy_revision: u64,
    ) -> (plan: ProjectionPlan)
        requires
            self.core_wf(),
        ensures
            is_plan_of(*self, document_width(cols), collapses@, policy_revision, plan@),
            cells_once(plan@.rows),
            plan.plan_revision == 0,
            plan.incremental_from is None,
            plan.incremental_appended_rows == 0,
    {
        let cols: usize = if cols == 0 {
            1
        } else {
            cols
        };
        let ghost plain = plain_rows(*self, cols);
        let mut rows = self.identity_document(cols);
        let mut effective_collapsed: Vec<u64> = Vec::new();
        let mut n: usize = 0;
        assert(effective_collapsed@.to_set() =~= Set::<u64>::empty());
        while n < collapses.len()
            invariant
                n <= collapses@.len(),
                row_models(rows@, cols as int) == all_folded(
                    plain,
                    collapses@,
                    n as int,
                    policy_revision,
                    cols as int,
                ),
                rising(effective_collapsed@),
                effective_collapsed@.to_set() == effective(
                    plain,
                    collapses@,
                    n as int,
                    policy_revision,
                    cols as int,
                ),
            decreases collapses.len() - n,
        {
            let ghost before = row_models(rows@, cols as int);
            assert(before.len() == rows@.len());
            match fold(&rows, &collapses[n], policy_revision, cols) {
                Some(result) => {
                    insert_id(&mut effective_collapsed, collapses[n].range.zone_id);
                    rows = result;
                },
                None => {},
            }
            n = n + 1;
        }
        let ghost folded = collapses@;
        let plan = ProjectionPlan {
            cols,
            rows,
            first_line: self.oldest_line(),
            history_ids: self.history_ids(),
            history_wraps: self.history_wraps(),
            collapses,
            effective_collapsed,
            plan_revision: 0,
            incremental_from: None,
            incremental_appended_rows: 0,
        };
        proof {
            let key = plan_key(*self, cols, policy_revision, Seq::empty());
            lemma_fresh_is_sound(*self, cols, folded, policy_revision, plan@, key);
            sound_documents_show_cells_once(key, plan@);
        }
        plan
    }

    /// The document that folds nothing.
    pub fn identity_projection_plan(&self, cols: usize) -> (plan: ProjectionPlan)
        requires
            self.core_wf(),
        ensures
            is_plan_of(*self, document_width(cols), Seq::empty(), 0, plan@),
            cells_once(plan@.rows),
    {
        self.build_plan(cols, Vec::new(), 0)
    }

    /// Whether the oldest rows of the history are the rows of `plan` from
    /// number `from` on.
    fn rows_stay(&self, plan: &ProjectionPlan, from: usize) -> (yes: bool)
        requires
            self.core_wf(),
            from <= plan.history_ids@.len() == plan.history_wraps@.len(),
            plan.history_ids@.len() - from <= self.scrollback@.len(),
        ensures
            yes == (forall|i: int|
                0 <= i < plan.history_ids@.len() - from ==> (#[trigger] self.history()[i]).id
                    == plan.history_ids@[from + i] && self.history()[i].wrapped
                    == plan.history_wraps@[from + i]),
    {
        let total: usize = plan.history_ids.len();
        let count: usize = total - from;
        let mut i: usize = 0;
        while i < count
            invariant
                i <= count <= self.scrollback@.len(),
                from <= total,
                count == total - from,
                total == plan.history_ids@.len() == plan.history_wraps@.len(),
                forall|k: int|
                    0 <= k < i ==> (#[trigger] self.history()[k]).id == plan.history_ids@[from + k]
                        && self.history()[k].wrapped == plan.history_wraps@[from + k],
            decreases count - i,
        {
            let line = &self.scrollback[i];
            assert(self.history()[i as int] == line@);
            if line.row_id != plan.history_ids[from + i] || line.is_wrapped
                != plan.history_wraps[from + i] {
                return false;
            }
            i = i + 1;
        }
        true
    }

    /// Whether the counters of two keys differ by whole-screen scrolling of
    /// `appended` rows.
    fn keys_differ_by_scrolling(
        &self,
        old_key: &ProjectionPlanKey,
        new_key: &ProjectionPlanKey,
        appended: u64,
    ) -> (yes: bool)
        ensures
            yes == {
                &&& old_key.finished_output_revision != 0
                &&& old_key.full_screen_scroll_revision != 0
                &&& new_key.full_screen_scroll_revision != 0
                &&& new_key.full_screen_scroll_revision - old_key.full_screen_scroll_revision
                    == appended
                &&& new_key.row_identity_revision - old_key.row_identity_revision == 2 * appended
                &&& old_key.finished_output_revision == new_key.finished_output_revision
                &&& old_key.policy_revision == new_key.policy_revision
                &&& old_key.policy_ids@ == new_key.policy_ids@
                &&& old_key.cols == new_key.cols
                &&& old_key.rows == new_key.rows
                &&& !old_key.row_wrapped@.contains(true)
                &&& !new_key.row_wrapped@.contains(true)
            },
    {
        let counted = match (
            new_key.full_screen_scroll_revision.checked_sub(old_key.full_screen_scroll_revision),
            new_key.row_identity_revision.checked_sub(old_key.row_identity_revision),
            appended.checked_add(appended),
        ) {
            (Some(scrolls), Some(moves), Some(twice)) => scrolls == appended && moves == twice,
            _ => false,
        };
        counted && old_key.finished_output_revision != 0 && old_key.full_screen_scroll_revision
            != 0 && new_key.full_screen_scroll_revision != 0 && old_key.finished_output_revision
            == new_key.finished_output_revision && old_key.policy_revision
            == new_key.policy_revision && same_ids(
            &old_key.policy_ids,
            &new_key.policy_ids,
        ) && old_key.cols == new_key.cols && old_key.rows == new_key.rows && !any_set(
            &old_key.row_wrapped,
        ) && !any_set(&new_key.row_wrapped)
    }

    /// How many rows leave a document for `old_key` at the top when it is
    /// advanced to the current rows, where it can be.
    fn rows_leaving(
        &self,
        old_key: &ProjectionPlanKey,
        new_key: &ProjectionPlanKey,
        plan: &ProjectionPlan,
    ) -> (leaving: Option<usize>)
        requires
            self.core_wf(),
            new_key.total_lines_scrolled == self.total_lines_scrolled,
            new_key.scrollback_len == self.scrollback@.len(),
        ensures
            match leaving {
                Some(leaving) => can_advance(*self, old_key@, new_key@, plan@) && leaving
                    == leading(plan@.rows, self.first_line_id() as u64, 0) && leaving
                    <= plan@.rows.len(),
                None => !can_advance(*self, old_key@, new_key@, plan@),
            },
    {
        let appended: u64 = match new_key.total_lines_scrolled.checked_sub(
            old_key.total_lines_scrolled,
        ) {
            Some(appended) => appended,
            None => return None,
        };
        if appended == 0 || appended > usize::MAX as u64 {
            return None;
        }
        let rows: usize = appended as usize;
        let old_first: u64 = match old_key.total_lines_scrolled.checked_sub(
            old_key.scrollback_len as u64,
        ) {
            Some(first) => first,
            None => return None,
        };
        if !self.keys_differ_by_scrolling(old_key, new_key, appended) {
            return None;
        }
        let width: usize = if old_key.cols == 0 {
            1
        } else {
            old_key.cols
        };
        if plan.cols != width || plan.history_ids.len() != old_key.scrollback_len
            || plan.history_wraps.len() != old_key.scrollback_len || plan.first_line != old_first {
            return None;
        }
        let boundary: usize = if new_key.scrollback_len > rows {
            new_key.scrollback_len - rows - 1
        } else {
            0
        };
        if old_key.scrollback_len > 0 && boundary < self.scrollback.len() {
            let line = &self.scrollback[boundary];
            assert(self.history()[boundary as int] == line@);
            if line.is_wrapped {
                return None;
            }
        }
        let expected: usize = match old_key.scrollback_len.checked_add(rows) {
            Some(expected) => expected,
            None => return None,
        };
        if expected < new_key.scrollback_len {
            return None;
        }
        let evicted: usize = expected - new_key.scrollback_len;
        if evicted > old_key.scrollback_len {
            return None;
        }
        let first: u64 = self.oldest_line();
        assert(first == old_first + evicted);
        if evicted > 0 && plan.history_wraps[evicted - 1] {
            return None;
        }
        let leaving: usize = plan.front_rows_before(first);
        if plan.rows.len() - leaving < old_key.rows {
            return None;
        }
        if !plan.folds_lie_within(first, old_key.total_lines_scrolled) {
            return None;
        }
        if !self.rows_stay(plan, evicted) || u64::MAX - new_key.total_lines_scrolled
            < new_key.rows as u64 {
            return None;
        }
        if !same_collapses(&self.resolve_outputs(&new_key.policy_ids), &plan.collapses) {
            return None;
        }
        Some(leaving)
    }

    /// Advances a document to the current rows, where nothing but whole-screen
    /// scrolling lies between.
    pub fn try_advance_collapsed_projection_plan(
        &self,
        old_key: &ProjectionPlanKey,
        new_key: &ProjectionPlanKey,
        plan: &ProjectionPlan,
    ) -> (result: Option<ProjectionPlan>)
        requires
            self.core_wf(),
            new_key.total_lines_scrolled == self.total_lines_scrolled,
            new_key.scrollback_len == self.scrollback@.len(),
        ensures
            match result {
                Some(result) => can_advance(*self, old_key@, new_key@, plan@) && result@
                    == advanced(*self, old_key@, plan@),
                None => !can_advance(*self, old_key@, new_key@, plan@),
            },
    {
        let leaving: usize = match self.rows_leaving(old_key, new_key, plan) {
            Some(leaving) => leaving,
            None => return None,
        };
        let appended: usize = (self.total_lines_scrolled - old_key.total_lines_scrolled) as usize;
        let first: u64 = self.oldest_line();
        let total: usize = plan.rows.len();
        let len: usize = self.scrollback.len();
        let cols: usize = plan.cols;
        let mut rows: Vec<Arc<PlanRow>> = Vec::new();
        append_rows(&mut rows, &plan.rows, leaving, total - old_key.rows);
        let ghost stay = rows@;
        let arrived = lay_history(&self.scrollback, first, len - appended, len, cols);
        let screen = self.lay_screen(cols);
        let arrived_len: usize = arrived.len();
        let screen_len: usize = screen.len();
        append_rows(&mut rows, &arrived, 0, arrived_len);
        let ghost with_arrived = rows@;
        append_rows(&mut rows, &screen, 0, screen_len);
        proof {
            assert(arrived@.subrange(0, arrived_len as int) =~= arrived@);
            assert(screen@.subrange(0, screen_len as int) =~= screen@);
            lemma_models_add(stay, arrived@, cols as int);
            lemma_models_add(with_arrived, screen@, cols as int);
            let kept = plan@.rows.subrange(leaving as int, total - old_key.rows);
            assert(row_models(stay, cols as int) =~= kept);
            assert(row_models(rows@, cols as int) =~= advanced_rows(*self, old_key@, plan@));
        }
        let incremental_from = match &plan.incremental_from {
            Some(key) => Some(share(key)),
            None => None,
        };
        Some(
            ProjectionPlan {
                cols,
                rows,
                first_line: first,
                history_ids: self.history_ids(),
                history_wraps: self.history_wraps(),
                collapses: copy_collapses(&plan.collapses),
                effective_collapsed: copy_ids(&plan.effective_collapsed),
                plan_revision: plan.plan_revision,
                incremental_from,
                incremental_appended_rows: plan.incremental_appended_rows,
            },
        )
    }

    /// Remembers a plan, if there is one, and the next number.
    fn remember_plan(
        &mut self,
        key: &Arc<ProjectionPlanKey>,
        plan: Option<Arc<ProjectionPlan>>,
        next: u64,
    )
        requires
            old(self).core_wf(),
            plan matches Some(plan) ==> is_sound(key@, plan@) && is_taken(
                plan@.plan_revision,
                next,
            ) && (plan@.plan_revision == 0 <==> plan@.effective_collapsed.len() == 0) && (
            plan@.plan_revision == 0 || plan@.plan_revision
                == old(self).caches.next_plan_revision),
            next == old(self).caches.next_plan_revision || (old(self).caches.next_plan_revision
                != 0 && next == next_plan_number(old(self).caches.next_plan_revision)),
        ensures
            final(self).core_wf(),
            plan_remembered(*old(self), key@, value_of(plan), next, *final(self)),
    {
        proof {
            reveal(ViewCaches::wf);
        }
        self.caches.plan = match plan {
            Some(plan) => Some(PlanCache { key: share(key), plan }),
            None => None,
        };
        self.caches.next_plan_revision = next;
    }

    /// Remembers a plan and hands it out, where it folds anything.
    fn adopt_plan(&mut self, key: &Arc<ProjectionPlanKey>, plan: ProjectionPlan) -> (result: Option<
        Arc<ProjectionPlan>,
    >)
        requires
            old(self).core_wf(),
            is_sound(key@, plan@),
            plan@.effective_collapsed.len() == 0 ==> plan.plan_revision == 0,
        ensures
            final(self).core_wf(),
            plan_adopted(
                *old(self),
                key@,
                plan@,
                *final(self),
                value_of(result),
            ),
            result matches Some(result) ==> is_sound(key@, result@),
    {
        let number: u64 = self.caches.next_plan_revision;
        if plan.effective_collapsed.len() == 0 {
            self.remember_plan(key, Some(Arc::new(plan)), number);
            return None;
        }
        if number == 0 {
            self.remember_plan(key, None, number);
            return None;
        }
        let numbered = Arc::new(ProjectionPlan { plan_revision: number, ..plan });
        assert(numbered@ == PlanModel { plan_revision: number, ..plan@ });
        proof {
            lemma_sound_renumbered(key@, plan@, numbered@);
        }
        let next: u64 = match number.checked_add(1) {
            Some(next) => next,
            None => 0,
        };
        self.remember_plan(key, Some(share(&numbered)), next);
        Some(numbered)
    }

    /// The document folded by `policy`: the remembered one, the remembered one
    /// advanced, or a new one. Nothing where nothing would be folded.
    pub fn cached_collapsed_projection_plan(
        &mut self,
        cols: usize,
        policy: &ProjectionPolicy,
    ) -> (result: Option<Arc<ProjectionPlan>>)
        requires
            old(self).core_wf(),
        ensures
            final(self).core_wf(),
            plan_requested(
                *old(self),
                cols,
                policy.revision,
                policy.collapsed@,
                *final(self),
                value_of(result),
            ),
            result matches Some(plan) ==> cells_once(plan@.rows),
    {
        let key = Arc::new(self.projection_plan_cache_key(cols, policy));
        let result = self.requested_plan(&key, cols, policy);
        proof {
            if result is Some {
                sound_documents_show_cells_once(key@, result->0@);
            }
        }
        result
    }

    /// The document folded by `policy` for `key`.
    fn requested_plan(
        &mut self,
        key: &Arc<ProjectionPlanKey>,
        cols: usize,
        policy: &ProjectionPolicy,
    ) -> (result: Option<Arc<ProjectionPlan>>)
        requires
            old(self).core_wf(),
            key@ == plan_key(*old(self), cols, policy.revision, policy.collapsed@),
        ensures
            final(self).core_wf(),
            plan_requested(
                *old(self),
                cols,
                policy.revision,
                policy.collapsed@,
                *final(self),
                value_of(result),
            ),
            result matches Some(plan) ==> is_sound(key@, plan@),
    {
        match self.remembered_plan(key) {
            RememberedPlan::Serves(plan) => {
                if plan.effective_collapsed.len() == 0 {
                    None
                } else {
                    Some(plan)
                }
            },
            RememberedPlan::Advances(plan) => self.adopt_plan(key, plan),
            RememberedPlan::Stale => self.fresh_plan(key, cols, policy),
        }
    }

    /// A new document folded by `policy`.
    fn fresh_plan(
        &mut self,
        key: &Arc<ProjectionPlanKey>,
        cols: usize,
        policy: &ProjectionPolicy,
    ) -> (result: Option<Arc<ProjectionPlan>>)
        requires
            old(self).core_wf(),
            key@ == plan_key(*old(self), cols, policy.revision, policy.collapsed@),
            !plan_hit(*old(self), key@),
            !plan_advances(*old(self), key@),
        ensures
            final(self).core_wf(),
            plan_requested(
                *old(self),
                cols,
                policy.revision,
                policy.collapsed@,
                *final(self),
                value_of(result),
            ),
            result matches Some(plan) ==> is_sound(key@, plan@),
    {
        let collapses = self.resolved_collapses(policy);
        if collapses.len() == 0 {
            proof {
                reveal(ViewCaches::wf);
            }
            self.caches.plan = None;
            return None;
        }
        let plan = self.build_plan(cols, collapses, policy.revision);
        let ghost model = plan@;
        proof {
            lemma_fresh_is_sound(
                *old(self),
                document_width(cols),
                resolved(*old(self), policy.collapsed@),
                policy.revision,
                model,
                key@,
            );
        }
        let result = self.adopt_plan(key, plan);
        assert(plan_adopted(
            *old(self),
            key@,
            model,
            *self,
            value_of(result),
        ));
        result
    }

    /// What the remembered document is good for.
    fn remembered_plan(&self, key: &Arc<ProjectionPlanKey>) -> (remembered: RememberedPlan)
        requires
            self.core_wf(),
            key.total_lines_scrolled == self.total_lines_scrolled,
            key.scrollback_len == self.scrollback@.len(),
            key.rows == self.grid@.len(),
        ensures
            match remembered {
                RememberedPlan::Serves(plan) => is_sound(key@, plan@),
                RememberedPlan::Advances(plan) => is_sound(key@, plan@) && (
                plan@.effective_collapsed.len() == 0 ==> plan.plan_revision == 0),
                RememberedPlan::Stale => true,
            },
            match remembered {
                RememberedPlan::Serves(plan) => plan_hit(*self, key@) && plan@
                    == self.caches.plan->0.plan@,
                RememberedPlan::Advances(plan) => !plan_hit(*self, key@) && plan_advances(
                    *self,
                    key@,
                ) && plan@ == advance_of(*self, key@),
                RememberedPlan::Stale => !plan_hit(*self, key@) && !plan_advances(*self, key@),
            },
    {
        proof {
            reveal(ViewCaches::wf);
        }
        match &self.caches.plan {
            Some(cache) => {
                if self.provenance.revision != 0 && cache.key.same(key) {
                    return RememberedPlan::Serves(share(&cache.plan));
                }
                match self.try_advance_collapsed_projection_plan(&cache.key, key, &cache.plan) {
                    Some(plan) => {
                        proof {
                            lemma_advance_is_sound(*self, cache.key@, key@, cache.plan@);
                            lemma_sound_renumbered(
                                key@,
                                plan@,
                                advance_of(*self, key@),
                            );
                        }
                        if plan.effective_collapsed.len() == 0 {
                            return RememberedPlan::Advances(plan);
                        }
                        if self.caches.next_plan_revision == 0 {
                            return RememberedPlan::Stale;
                        }
                        let appended: u64 = key.total_lines_scrolled
                            - cache.key.total_lines_scrolled;
                        RememberedPlan::Advances(
                            ProjectionPlan {
                                incremental_from: Some(share(&cache.key)),
                                incremental_appended_rows: appended as usize,
                                ..plan
                            },
                        )
                    },
                    None => RememberedPlan::Stale,
                }
            },
            None => RememberedPlan::Stale,
        }
    }
}

/// The remembered document, advanced to the current rows.
pub open spec fn advance_of(state: TerminalState, key: PlanKeyModel) -> PlanModel {
    let old_key = state.caches.plan->0.key@;
    let plan = advanced(state, old_key, state.caches.plan->0.plan@);
    if plan.effective_collapsed.len() == 0 {
        plan
    } else {
        PlanModel {
            incremental_from: Some(old_key),
            incremental_appended_rows: (key.total_lines_scrolled
                - old_key.total_lines_scrolled) as usize,
            ..plan
        }
    }
}

/// A document that is handed out is remembered, and folds something.
pub proof fn lemma_handed_out(
    pre: TerminalState,
    cols: usize,
    policy_revision: u64,
    ids: Seq<u64>,
    post: TerminalState,
    plan: PlanModel,
)
    requires
        plan_requested(pre, cols, policy_revision, ids, post, Some(plan)),
    ensures
        post == (TerminalState { caches: post.caches, ..pre }),
        post.caches.plan is Some,
        post.caches.plan->0.key@ == plan_key(pre, cols, policy_revision, ids),
        post.caches.plan->0.plan@ == plan,
        plan.effective_collapsed.len() > 0,
{
}

/// What a remembered document is good for.
enum RememberedPlan {
    /// It serves as it is.
    Serves(Arc<ProjectionPlan>),
    /// It has been advanced.
    Advances(ProjectionPlan),
    /// For nothing.
    Stale,
}

} // verus!
