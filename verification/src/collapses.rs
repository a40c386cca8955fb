//! Finds the outputs that a policy folds.

use vstd::prelude::*;

use crate::blocks::finished_range;
use crate::plan::ResolvedCollapse;
use crate::projection::ProjectionPolicy;
use crate::provenance::BufferAnchor;
use crate::state::TerminalState;

verus! {

broadcast use vstd::std_specs::hash::group_hash_axioms;

/// Where an output is, while all of it is retained.
pub open spec fn candidate(state: TerminalState, zone_id: u64) -> Option<ResolvedCollapse> {
    match finished_range(state, zone_id) {
        Some(range) => {
            let output = state.provenance.zones@[zone_id];
            let expected = BufferAnchor { line_id: output.start_line_id, column: range.start.col };
            match state.row_of_id(range.start.row, Some(expected)) {
                Some(first) => {
                    let last = first + output.rows@.len() - 1;
                    if 0 <= last < state.document().len() && state.document()[last].id
                        == range.end.row {
                        Some(
                            ResolvedCollapse {
                                range,
                                start_line: state.line_of_absolute(first),
                                end_line: state.line_of_absolute(last),
                            },
                        )
                    } else {
                        None
                    }
                },
                None => None,
            }
        },
        None => None,
    }
}

/// Whether `a` comes before `b`: by where they begin, then by where they end,
/// then by number.
pub open spec fn comes_before(a: ResolvedCollapse, b: ResolvedCollapse) -> bool {
    if a.start_line != b.start_line {
        a.start_line < b.start_line
    } else if a.range.start.col != b.range.start.col {
        a.range.start.col < b.range.start.col
    } else if a.end_line != b.end_line {
        a.end_line < b.end_line
    } else if a.range.end.col != b.range.end.col {
        a.range.end.col < b.range.end.col
    } else {
        a.range.zone_id < b.range.zone_id
    }
}

/// Where `item` belongs in an ordered list.
pub open spec fn slot_for(list: Seq<ResolvedCollapse>, item: ResolvedCollapse) -> int
    decreases list.len(),
{
    if list.len() > 0 && comes_before(item, list.last()) {
        slot_for(list.drop_last(), item)
    } else {
        list.len() as int
    }
}

/// The retained outputs among the first `n` of `zones`, in document order.
pub open spec fn candidates(state: TerminalState, zones: Seq<u64>, n: int) -> Seq<ResolvedCollapse>
    decreases n,
{
    if n <= 0 {
        Seq::empty()
    } else {
        let earlier = candidates(state, zones, n - 1);
        match candidate(state, zones[n - 1]) {
            Some(item) => earlier.insert(slot_for(earlier, item), item),
            None => earlier,
        }
    }
}

/// Whether `a` ends where `b` begins, or before.
pub open spec fn ends_before(a: ResolvedCollapse, b: ResolvedCollapse) -> bool {
    a.end_line < b.start_line || (a.end_line == b.start_line && a.range.end.col
        <= b.range.start.col)
}

/// Whether the output at `i` overlaps none of the others.
pub open spec fn stands_alone(list: Seq<ResolvedCollapse>, i: int) -> bool {
    &&& forall|j: int| 0 <= j < i ==> ends_before(#[trigger] list[j], list[i])
    &&& forall|j: int| i < j < list.len() ==> ends_before(list[i], #[trigger] list[j])
}

/// The outputs among the first `n` of a list that overlap none of the others.
pub open spec fn alone(list: Seq<ResolvedCollapse>, n: int) -> Seq<ResolvedCollapse>
    decreases n,
{
    if n <= 0 {
        Seq::empty()
    } else if stands_alone(list, n - 1) {
        alone(list, n - 1).push(list[n - 1])
    } else {
        alone(list, n - 1)
    }
}

/// The outputs that a policy folds. Ones that overlap are all left unfolded.
pub open spec fn resolved(state: TerminalState, zones: Seq<u64>) -> Seq<ResolvedCollapse> {
    let list = candidates(state, zones, zones.len() as int);
    alone(list, list.len() as int)
}

/// Outputs in document order.
pub open spec fn in_order(list: Seq<ResolvedCollapse>) -> bool {
    forall|i: int, j: int|
        0 <= i < j < list.len() ==> !comes_before(#[trigger] list[j], #[trigger] list[i])
}

/// A slot lies within the list; what is before it does not come behind the
/// item, and what is behind it does.
pub proof fn lemma_slot(list: Seq<ResolvedCollapse>, item: ResolvedCollapse)
    requires
        in_order(list),
    ensures
        0 <= slot_for(list, item) <= list.len(),
        in_order(list.insert(slot_for(list, item), item)),
        forall|i: int| 0 <= i < slot_for(list, item) ==> !comes_before(item, #[trigger] list[i]),
        forall|i: int|
            slot_for(list, item) <= i < list.len() ==> comes_before(item, #[trigger] list[i]),
    decreases list.len(),
{
    if list.len() > 0 && comes_before(item, list.last()) {
        let head = list.drop_last();
        assert forall|i: int, j: int| 0 <= i < j < head.len() implies !comes_before(
            #[trigger] head[j],
            #[trigger] head[i],
        ) by {
            assert(head[i] == list[i] && head[j] == list[j]);
        }
        lemma_slot(head, item);
        let s = slot_for(list, item);
        assert forall|i: int| s <= i < list.len() implies comes_before(
            item,
            #[trigger] list[i],
        ) by {
            if i < head.len() {
                assert(head[i] == list[i]);
            }
        }
        assert forall|i: int| 0 <= i < s implies !comes_before(item, #[trigger] list[i]) by {
            assert(head[i] == list[i]);
        }
    } else {
        assert forall|i: int| 0 <= i < list.len() implies !comes_before(
            item,
            #[trigger] list[i],
        ) by {
            if i < list.len() - 1 {
                assert(!comes_before(list.last(), list[i]));
            }
        }
    }
}

/// Retained outputs come in document order.
pub proof fn candidates_are_in_order(state: TerminalState, zones: Seq<u64>, n: int)
    ensures
        in_order(candidates(state, zones, n)),
    decreases n,
{
    if n > 0 {
        candidates_are_in_order(state, zones, n - 1);
        match candidate(state, zones[n - 1]) {
            Some(item) => {
                lemma_slot(candidates(state, zones, n - 1), item);
            },
            None => {},
        }
    }
}

/// The first `n` outputs that overlap none of the others end one before the
/// next begins.
proof fn lemma_alone(list: Seq<ResolvedCollapse>, n: int)
    requires
        0 <= n <= list.len(),
    ensures
        forall|i: int, j: int|
            0 <= i < j < alone(list, n).len() ==> ends_before(
                #[trigger] alone(list, n)[i],
                #[trigger] alone(list, n)[j],
            ),
        forall|i: int, j: int|
            0 <= i < alone(list, n).len() && n <= j < list.len() ==> ends_before(
                #[trigger] alone(list, n)[i],
                #[trigger] list[j],
            ),
    decreases n,
{
    if n > 0 {
        lemma_alone(list, n - 1);
        let earlier = alone(list, n - 1);
        let all = alone(list, n);
        assert forall|i: int, j: int| 0 <= i < j < all.len() implies ends_before(
            #[trigger] all[i],
            #[trigger] all[j],
        ) by {
            assert(all[i] == earlier[i]);
            if j < earlier.len() {
                assert(all[j] == earlier[j]);
            } else {
                assert(all[j] == list[n - 1]);
            }
        }
        assert forall|i: int, j: int|
            0 <= i < all.len() && n <= j < list.len() implies ends_before(
            #[trigger] all[i],
            #[trigger] list[j],
        ) by {
            if i < earlier.len() {
                assert(all[i] == earlier[i]);
            } else {
                assert(all[i] == list[n - 1]);
            }
        }
    }
}

/// Folded outputs never overlap: each ends before the next begins.
pub proof fn folded_outputs_are_disjoint(state: TerminalState, zones: Seq<u64>, i: int, j: int)
    requires
        0 <= i < j < resolved(state, zones).len(),
    ensures
        ends_before(resolved(state, zones)[i], resolved(state, zones)[j]),
{
    let list = candidates(state, zones, zones.len() as int);
    lemma_alone(list, list.len() as int);
}

/// Whether `a` comes before `b`.
fn goes_before(a: &ResolvedCollapse, b: &ResolvedCollapse) -> (yes: bool)
    ensures
        yes == comes_before(*a, *b),
{
    if a.start_line != b.start_line {
        a.start_line < b.start_line
    } else if a.range.start.col != b.range.start.col {
        a.range.start.col < b.range.start.col
    } else if a.end_line != b.end_line {
        a.end_line < b.end_line
    } else if a.range.end.col != b.range.end.col {
        a.range.end.col < b.range.end.col
    } else {
        a.range.zone_id < b.range.zone_id
    }
}

/// Whether `a` ends where `b` begins, or before.
fn is_before(a: &ResolvedCollapse, b: &ResolvedCollapse) -> (yes: bool)
    ensures
        yes == ends_before(*a, *b),
{
    a.end_line < b.start_line || (a.end_line == b.start_line && a.range.end.col
        <= b.range.start.col)
}

/// Whether the output at `i` overlaps none of the others.
fn is_alone(list: &Vec<ResolvedCollapse>, i: usize) -> (yes: bool)
    requires
        i < list.len(),
    ensures
        yes == stands_alone(list@, i as int),
{
    let mut j: usize = 0;
    while j < list.len()
        invariant
            i < list@.len(),
            j <= list@.len(),
            forall|k: int| 0 <= k < i && k < j ==> ends_before(#[trigger] list@[k], list@[i as int]),
            forall|k: int| i < k < j ==> ends_before(list@[i as int], #[trigger] list@[k]),
        decreases list.len() - j,
    {
        if j < i && !is_before(&list[j], &list[i]) {
            assert(!ends_before(list@[j as int], list@[i as int]));
            return false;
        }
        if j > i && !is_before(&list[i], &list[j]) {
            assert(!ends_before(list@[i as int], list@[j as int]));
            return false;
        }
        j = j + 1;
    }
    true
}

/// Puts an output where it belongs in an ordered list.
fn insert_in_order(list: &mut Vec<ResolvedCollapse>, item: ResolvedCollapse)
    requires
        in_order(old(list)@),
    ensures
        final(list)@ == old(list)@.insert(slot_for(old(list)@, item), item),
{
    let ghost all = list@;
    let mut slot: usize = list.len();
    proof {
        lemma_slot(all, item);
        assert(all.take(slot as int) =~= all);
    }
    while slot > 0 && goes_before(&item, &list[slot - 1])
        invariant
            slot <= all.len(),
            all == list@,
            slot_for(all, item) == slot_for(all.take(slot as int), item),
        decreases slot,
    {
        assert(all.take(slot as int).last() == all[slot - 1]);
        assert(all.take(slot as int).drop_last() =~= all.take(slot - 1));
        slot = slot - 1;
    }
    assert(slot > 0 ==> all.take(slot as int).last() == all[slot - 1]);
    list.insert(slot, item);
}

impl TerminalState {
    /// Finds where an output is, while all of it is retained.
    fn find_candidate(&self, zone_id: u64) -> (found: Option<ResolvedCollapse>)
        requires
            self.core_wf(),
        ensures
            found == candidate(*self, zone_id),
    {
        let range = match self.finished_output_range(zone_id) {
            Some(range) => range,
            None => return None,
        };
        match self.provenance.zones.get(&zone_id) {
            Some(output) => {
                let expected = BufferAnchor {
                    line_id: output.start_line_id,
                    column: range.start.col,
                };
                let (first, _) = match self.retained_raw_row_absolute(
                    range.start.row,
                    Some(expected),
                ) {
                    Some(found) => found,
                    None => return None,
                };
                let count: usize = output.rows.len();
                if count == 0 {
                    return None;
                }
                let last: usize = match first.checked_add(count - 1) {
                    Some(last) => last,
                    None => return None,
                };
                match self.retained_raw_row(last) {
                    Some((id, _)) => {
                        if id != range.end.row {
                            return None;
                        }
                    },
                    None => return None,
                }
                match (
                    self.absolute_to_buffer_anchor((first, 0)),
                    self.absolute_to_buffer_anchor((last, 0)),
                ) {
                    (Some(start), Some(end)) => Some(
                        ResolvedCollapse {
                            range,
                            start_line: start.line_id,
                            end_line: end.line_id,
                        },
                    ),
                    _ => None,
                }
            },
            None => None,
        }
    }

    /// The retained outputs among `zones`, in document order.
    fn find_candidates(&self, zones: &Vec<u64>) -> (list: Vec<ResolvedCollapse>)
        requires
            self.core_wf(),
        ensures
            list@ == candidates(*self, zones@, zones@.len() as int),
    {
        let mut list: Vec<ResolvedCollapse> = Vec::new();
        let mut n: usize = 0;
        while n < zones.len()
            invariant
                self.core_wf(),
                n <= zones@.len(),
                list@ == candidates(*self, zones@, n as int),
            decreases zones.len() - n,
        {
            let found = self.find_candidate(zones[n]);
            proof {
                candidates_are_in_order(*self, zones@, n as int);
            }
            if let Some(item) = found {
                insert_in_order(&mut list, item);
            }
            n = n + 1;
        }
        list
    }

    /// The outputs that a policy folds.
    pub fn resolved_collapses(&self, policy: &ProjectionPolicy) -> (list: Vec<ResolvedCollapse>)
        requires
            self.core_wf(),
        ensures
            list@ == resolved(*self, policy.collapsed@),
    {
        self.resolve_outputs(&policy.collapsed)
    }

    /// Those of the outputs `ids` that are folded.
    pub(crate) fn resolve_outputs(&self, ids: &Vec<u64>) -> (list: Vec<ResolvedCollapse>)
        requires
            self.core_wf(),
        ensures
            list@ == resolved(*self, ids@),
    {
        let all = self.find_candidates(ids);
        let mut list: Vec<ResolvedCollapse> = Vec::new();
        let mut n: usize = 0;
        while n < all.len()
            invariant
                n <= all@.len(),
                list@ == alone(all@, n as int),
            decreases all.len() - n,
        {
            if is_alone(&all, n) {
                list.push(all[n]);
            }
            n = n + 1;
        }
        list
    }
}

} // verus!
