//! Ownership of screen rows by finished command output.

use std::collections::HashMap;
use vstd::prelude::*;

use crate::grid::RawRowId;

verus! {

broadcast use vstd::std_specs::hash::group_hash_axioms;

/// A position in the stable line numbering of the primary buffer.
#[derive(Clone, Copy, Debug, PartialEq, Eq, Structural)]
pub struct BufferAnchor {
    pub line_id: u64,
    pub column: usize,
}

impl BufferAnchor {
    /// Document order.
    pub open spec fn precedes_or_is(self, other: BufferAnchor) -> bool {
        self.line_id < other.line_id || (self.line_id == other.line_id && self.column
            <= other.column)
    }

    /// Document order.
    pub fn le(&self, other: &BufferAnchor) -> (yes: bool)
        ensures
            yes == self.precedes_or_is(*other),
    {
        self.line_id < other.line_id || (self.line_id == other.line_id && self.column
            <= other.column)
    }
}

/// A cell boundary of one physical row.
#[derive(Clone, Copy, Debug, PartialEq, Eq, Structural)]
pub struct RawCellBoundary {
    pub row: RawRowId,
    pub col: usize,
}

/// The exact cells that one finished command wrote.
#[derive(Clone, Copy, Debug, PartialEq, Eq, Structural)]
pub struct FinishedOutputRange {
    pub zone_id: u64,
    pub start: RawCellBoundary,
    pub end: RawCellBoundary,
}

/// The part of one physical row that belongs to a finished output.
#[derive(Clone, Copy, Debug, PartialEq, Eq, Structural)]
pub struct FinishedOutputRow {
    pub row_id: RawRowId,
    pub start_col: usize,
    pub end_col: usize,
}

/// One entry of the row-to-output index.
#[derive(Clone, Copy, Debug, PartialEq, Eq, Structural)]
pub struct FinishedOutputOwner {
    pub zone_id: u64,
    pub start_col: usize,
    pub end_col: usize,
}

/// A finished output with every physical row it covers.
pub struct FinishedOutputProvenance {
    pub range: FinishedOutputRange,
    pub start_line_id: u64,
    pub rows: Vec<FinishedOutputRow>,
}

/// What is known of the output of the running command.
#[derive(Clone, Copy, Debug, PartialEq, Eq, Structural)]
pub struct ActiveOutputProvenance {
    pub zone_id: u64,
    pub start: BufferAnchor,
    pub start_row_id: RawRowId,
    pub extent: Option<BufferAnchor>,
    pub extent_row_id: Option<RawRowId>,
    pub last_write_end: Option<BufferAnchor>,
    pub semantic_end: Option<BufferAnchor>,
    pub cursor_moved_since_output: bool,
    pub invalid: bool,
}

/// The finished outputs, the index from row to output, and the running one.
pub struct OutputProvenance {
    pub zones: HashMap<u64, FinishedOutputProvenance>,
    pub owners: HashMap<u64, Vec<FinishedOutputOwner>>,
    pub revision: u64,
    pub active: Option<ActiveOutputProvenance>,
}

/// The index entry that a covered row gives rise to.
pub open spec fn owner_of(zone_id: u64, row: FinishedOutputRow) -> FinishedOutputOwner {
    FinishedOutputOwner { zone_id, start_col: row.start_col, end_col: row.end_col }
}

/// A bucket without the entries of the given outputs.
pub open spec fn without_owners(bucket: Seq<FinishedOutputOwner>, zones: Set<u64>) -> Seq<
    FinishedOutputOwner,
> {
    bucket.filter(|owner: FinishedOutputOwner| !zones.contains(owner.zone_id))
}

/// The index without the entries of the given outputs; empty buckets vanish.
pub open spec fn without_zones(
    owners: Map<u64, Seq<FinishedOutputOwner>>,
    zones: Set<u64>,
) -> Map<u64, Seq<FinishedOutputOwner>> {
    Map::new(
        |row: u64| owners.contains_key(row) && without_owners(owners[row], zones).len() > 0,
        |row: u64| without_owners(owners[row], zones),
    )
}

/// The outputs that own some part of row `row`.
pub open spec fn zones_on_row(owners: Map<u64, Seq<FinishedOutputOwner>>, row: u64) -> Set<u64> {
    Set::new(
        |zone: u64|
            owners.contains_key(row) && exists|k: int|
                0 <= k < owners[row].len() && (#[trigger] owners[row][k]).zone_id == zone,
    )
}

/// The revision counter after `n` changes; zero, once reached, is final.
pub open spec fn revision_after(revision: u64, n: int) -> u64 {
    if revision == 0 || revision + n > u64::MAX {
        0
    } else {
        (revision + n) as u64
    }
}

/// The index holds an entry for each covered row of each output and nothing
/// else.
#[verifier::opaque]
pub open spec fn index_consistent(
    zones: Map<u64, FinishedOutputProvenance>,
    owners: Map<u64, Seq<FinishedOutputOwner>>,
) -> bool {
    &&& forall|zone: u64, i: int|
        #![trigger zones[zone].rows@[i]]
        zones.contains_key(zone) && 0 <= i < zones[zone].rows@.len() ==> {
            let row = zones[zone].rows@[i];
            owners.contains_key(row.row_id.raw) && owners[row.row_id.raw].contains(
                owner_of(zone, row),
            )
        }
    &&& forall|row: u64, k: int|
        #![trigger owners[row][k]]
        owners.contains_key(row) && 0 <= k < owners[row].len() ==> covers(
            zones,
            row,
            owners[row][k],
        )
    &&& forall|row: u64| #[trigger] owners.contains_key(row) ==> owners[row].len() > 0
    &&& forall|zone: u64| #[trigger]
        zones.contains_key(zone) ==> zones[zone].range.zone_id == zone
}

/// Whether some output covers exactly what the index entry says of `row`.
pub open spec fn covers(
    zones: Map<u64, FinishedOutputProvenance>,
    row: u64,
    owner: FinishedOutputOwner,
) -> bool {
    &&& zones.contains_key(owner.zone_id)
    &&& exists|i: int|
        0 <= i < zones[owner.zone_id].rows@.len() && (
        #[trigger] zones[owner.zone_id].rows@[i]).row_id.raw == row && owner == owner_of(
            owner.zone_id,
            zones[owner.zone_id].rows@[i],
        )
}

impl OutputProvenance {
    /// The index as a value.
    pub open spec fn owner_map(&self) -> Map<u64, Seq<FinishedOutputOwner>> {
        Map::new(|row: u64| self.owners@.contains_key(row), |row: u64| self.owners@[row]@)
    }

    /// The index matches the outputs.
    pub open spec fn wf(&self) -> bool {
        index_consistent(self.zones@, self.owner_map())
    }

    /// No output is known.
    pub fn new() -> (provenance: OutputProvenance)
        ensures
            provenance.wf(),
            provenance.zones@ == Map::<u64, FinishedOutputProvenance>::empty(),
            provenance.owner_map() == Map::<u64, Seq<FinishedOutputOwner>>::empty(),
            provenance.revision == 1,
            provenance.active is None,
    {
        let provenance = OutputProvenance {
            zones: HashMap::new(),
            owners: HashMap::new(),
            revision: 1,
            active: None,
        };
        assert(provenance.owner_map() =~= Map::<u64, Seq<FinishedOutputOwner>>::empty());
        proof {
            reveal(index_consistent);
        }
        provenance
    }

    /// Counts one change.
    pub fn bump_revision(&mut self)
        ensures
            *final(self) == (OutputProvenance {
                revision: revision_after(old(self).revision, 1),
                ..*old(self)
            }),
    {
        if self.revision != 0 {
            self.revision = match self.revision.checked_add(1) {
                Some(next) => next,
                None => 0,
            };
        }
    }
}

/// The entries of `bucket` that do not belong to `zone`.
fn retain_other_zones(bucket: &Vec<FinishedOutputOwner>, zone: u64) -> (kept: Vec<
    FinishedOutputOwner,
>)
    ensures
        kept@ == without_owners(bucket@, set![zone]),
{
    let mut kept: Vec<FinishedOutputOwner> = Vec::new();
    let mut i: usize = 0;
    let ghost keep = |owner: FinishedOutputOwner| !set![zone].contains(owner.zone_id);
    proof {
        reveal(Seq::filter);
        assert(bucket@.take(0).filter(keep) =~= Seq::<FinishedOutputOwner>::empty());
    }
    while i < bucket.len()
        invariant
            i <= bucket@.len(),
            keep == (|owner: FinishedOutputOwner| !set![zone].contains(owner.zone_id)),
            kept@ == bucket@.take(i as int).filter(keep),
        decreases bucket.len() - i,
    {
        proof {
            reveal(Seq::filter);
            assert(bucket@.take(i + 1).drop_last() =~= bucket@.take(i as int));
        }
        if bucket[i].zone_id != zone {
            kept.push(bucket[i]);
        }
        i = i + 1;
    }
    assert(bucket@.take(i as int) =~= bucket@);
    kept
}

/// What filtering keeps: exactly the entries of other outputs, and a bucket
/// without entries of the given outputs stays as it is.
proof fn lemma_without_owners(bucket: Seq<FinishedOutputOwner>, zones: Set<u64>)
    ensures
        forall|k: int|
            0 <= k < without_owners(bucket, zones).len() ==> bucket.contains(
                #[trigger] without_owners(bucket, zones)[k],
            ) && !zones.contains(without_owners(bucket, zones)[k].zone_id),
        forall|k: int|
            0 <= k < bucket.len() && !zones.contains((#[trigger] bucket[k]).zone_id)
                ==> without_owners(bucket, zones).contains(bucket[k]),
        (forall|k: int| 0 <= k < bucket.len() ==> !zones.contains((#[trigger] bucket[k]).zone_id))
            ==> without_owners(bucket, zones) == bucket,
    decreases bucket.len(),
{
    reveal(Seq::filter);
    let keep = |owner: FinishedOutputOwner| !zones.contains(owner.zone_id);
    if bucket.len() > 0 {
        let head = bucket.drop_last();
        let last = bucket.last();
        lemma_without_owners(head, zones);
        let out = without_owners(bucket, zones);
        let head_out = without_owners(head, zones);
        assert(out == if keep(last) {
            head_out.push(last)
        } else {
            head_out
        });
        assert forall|k: int| 0 <= k < out.len() implies bucket.contains(#[trigger] out[k])
            && !zones.contains(out[k].zone_id) by {
            if k < head_out.len() {
                assert(head.contains(head_out[k]));
                let m = choose|m: int| 0 <= m < head.len() && head[m] == head_out[k];
                assert(bucket[m] == out[k]);
            } else {
                assert(bucket[bucket.len() - 1] == out[k]);
            }
        }
        assert forall|k: int|
            0 <= k < bucket.len() && !zones.contains((#[trigger] bucket[k]).zone_id) implies out.contains(
            bucket[k],
        ) by {
            if k < head.len() {
                assert(head[k] == bucket[k]);
                assert(head_out.contains(head[k]));
                let m = choose|m: int| 0 <= m < head_out.len() && head_out[m] == head[k];
                assert(out[m] == bucket[k]);
            } else {
                assert(out[out.len() - 1] == last);
            }
        }
        if forall|k: int| 0 <= k < bucket.len() ==> !zones.contains((#[trigger] bucket[k]).zone_id) {
            assert(forall|k: int| 0 <= k < head.len() ==> #[trigger] head[k] == bucket[k]);
            assert(keep(bucket[bucket.len() - 1]));
            assert(out =~= bucket);
        }
    }
}

/// Filtering twice is filtering by both.
proof fn lemma_without_owners_twice(
    bucket: Seq<FinishedOutputOwner>,
    first: Set<u64>,
    second: Set<u64>,
)
    ensures
        without_owners(without_owners(bucket, first), second) == without_owners(
            bucket,
            first.union(second),
        ),
    decreases bucket.len(),
{
    reveal(Seq::filter);
    if bucket.len() > 0 {
        let head = bucket.drop_last();
        lemma_without_owners_twice(head, first, second);
        let head_out = without_owners(head, first);
        if !first.contains(bucket.last().zone_id) {
            assert(without_owners(bucket, first) == head_out.push(bucket.last()));
            assert(head_out.push(bucket.last()).drop_last() =~= head_out);
        }
    }
}

/// Filtering the whole index twice is filtering by both.
proof fn lemma_without_zones_twice(
    owners: Map<u64, Seq<FinishedOutputOwner>>,
    first: Set<u64>,
    second: Set<u64>,
)
    ensures
        without_zones(without_zones(owners, first), second) == without_zones(
            owners,
            first.union(second),
        ),
{
    assert forall|row: u64| owners.contains_key(row) implies {
        &&& without_owners(#[trigger] without_owners(owners[row], first), second)
            == without_owners(owners[row], first.union(second))
        &&& without_owners(owners[row], first).len() == 0 ==> without_owners(
            owners[row],
            first.union(second),
        ).len() == 0
    } by {
        lemma_without_owners_twice(owners[row], first, second);
        reveal(Seq::filter);
    }
    assert(without_zones(without_zones(owners, first), second) =~= without_zones(
        owners,
        first.union(second),
    ));
}

/// Dropping outputs together with their index entries keeps the index
/// consistent.
proof fn lemma_consistent_without(
    zones: Map<u64, FinishedOutputProvenance>,
    owners: Map<u64, Seq<FinishedOutputOwner>>,
    gone: Set<u64>,
)
    requires
        index_consistent(zones, owners),
    ensures
        index_consistent(zones.remove_keys(gone), without_zones(owners, gone)),
{
    reveal(index_consistent);
    let zones2 = zones.remove_keys(gone);
    let owners2 = without_zones(owners, gone);
    assert forall|zone: u64, i: int|
        #![trigger zones2[zone].rows@[i]]
        zones2.contains_key(zone) && 0 <= i < zones2[zone].rows@.len() implies {
        let row = zones2[zone].rows@[i];
        owners2.contains_key(row.row_id.raw) && owners2[row.row_id.raw].contains(
            owner_of(zone, row),
        )
    } by {
        let row = zones[zone].rows@[i];
        let bucket = owners[row.row_id.raw];
        lemma_without_owners(bucket, gone);
        let k = choose|k: int| 0 <= k < bucket.len() && bucket[k] == owner_of(zone, row);
        assert(without_owners(bucket, gone).contains(bucket[k]));
    }
    assert forall|row: u64, k: int|
        #![trigger owners2[row][k]]
        owners2.contains_key(row) && 0 <= k < owners2[row].len() implies covers(
        zones2,
        row,
        owners2[row][k],
    ) by {
        lemma_without_owners(owners[row], gone);
        let owner = owners2[row][k];
        let m = choose|m: int| 0 <= m < owners[row].len() && owners[row][m] == owner;
        assert(covers(zones, row, owners[row][m]));
        let i = choose|i: int|
            0 <= i < zones[owner.zone_id].rows@.len() && (
            #[trigger] zones[owner.zone_id].rows@[i]).row_id.raw == row && owner == owner_of(
                owner.zone_id,
                zones[owner.zone_id].rows@[i],
            );
        assert(zones2[owner.zone_id].rows@[i].row_id.raw == row);
    }
}

/// Dropping no output changes nothing.
proof fn lemma_without_none(
    zones: Map<u64, FinishedOutputProvenance>,
    owners: Map<u64, Seq<FinishedOutputOwner>>,
    gone: Set<u64>,
)
    requires
        index_consistent(zones, owners),
        forall|zone: u64| gone.contains(zone) ==> !zones.contains_key(zone),
    ensures
        without_zones(owners, gone) == owners,
        zones.remove_keys(gone) == zones,
{
    reveal(index_consistent);
    assert forall|row: u64| #[trigger] owners.contains_key(row) implies without_owners(
        owners[row],
        gone,
    ) == owners[row] by {
        lemma_without_owners(owners[row], gone);
        assert forall|k: int| 0 <= k < owners[row].len() implies !gone.contains(
            (#[trigger] owners[row][k]).zone_id,
        ) by {
            assert(covers(zones, row, owners[row][k]));
        }
    }
    assert(without_zones(owners, gone) =~= owners);
    assert(zones.remove_keys(gone) =~= zones);
}

impl OutputProvenance {
    /// Forgets one output and its index entries. The result says whether it
    /// was known.
    pub fn unregister(&mut self, zone: u64) -> (known: bool)
        requires
            old(self).wf(),
        ensures
            final(self).wf(),
            known == old(self).zones@.contains_key(zone),
            final(self).active == old(self).active,
            final(self).zones@ == old(self).zones@.remove_keys(set![zone]),
            final(self).owner_map() == without_zones(old(self).owner_map(), set![zone]),
            final(self).revision == if known {
                revision_after(old(self).revision, 1)
            } else {
                old(self).revision
            },
    {
        let ghost zones0 = self.zones@;
        let ghost owners0 = self.owner_map();
        let ghost gone = set![zone];
        let removed = match self.zones.remove(&zone) {
            Some(provenance) => provenance,
            None => {
                proof {
                    lemma_without_none(zones0, owners0, gone);
                    assert(self.zones@ =~= zones0);
                    assert(self.owner_map() =~= owners0);
                }
                return false;
            },
        };
        let rows = removed.rows;
        assert(rows@ == zones0[zone].rows@);
        let mut i: usize = 0;
        assert(self.owner_map() =~= partially_without(owners0, rows@, 0, gone));
        while i < rows.len()
            invariant
                i <= rows@.len(),
                gone == set![zone],
                owners0 == old(self).owner_map(),
                self.active == old(self).active,
                self.revision == old(self).revision,
                self.zones@ == old(self).zones@.remove(zone),
                self.owner_map() == partially_without(owners0, rows@, i as int, gone),
            decreases rows.len() - i,
        {
            let key: u64 = rows[i].row_id.raw;
            let ghost before = self.owner_map();
            match self.owners.remove(&key) {
                Some(bucket) => {
                    let kept = retain_other_zones(&bucket, zone);
                    proof {
                        assert(before.contains_key(key) && before[key] == bucket@);
                        assert(owners0.contains_key(key));
                        if touched(rows@, i as int, key) {
                            lemma_without_owners_twice(owners0[key], gone, gone);
                            assert(gone.union(gone) =~= gone);
                        }
                    }
                    assert(kept@ == without_owners(owners0[key], gone));
                    if kept.len() > 0 {
                        self.owners.insert(key, kept);
                    }
                },
                None => {
                    assert(!before.contains_key(key));
                },
            }
            i = i + 1;
            proof {
                assert(forall|row: u64| row != key ==> (#[trigger] before.contains_key(row))
                    == self.owner_map().contains_key(row));
                assert forall|row: u64| touched(rows@, i as int, row) == (touched(
                    rows@,
                    i - 1,
                    row,
                ) || row == key) by {
                    if row == key {
                        assert(rows@[i - 1].row_id.raw == row);
                    }
                }
                let target = partially_without(owners0, rows@, i as int, gone);
                assert(touched(rows@, i as int, key));
                assert(self.owner_map().contains_key(key) == target.contains_key(key));
                assert forall|row: u64| self.owner_map().contains_key(row) == (
                #[trigger] target.contains_key(row)) by {
                    if row != key {
                        assert(before.contains_key(row) == target.contains_key(row));
                    }
                }
                assert forall|row: u64| #[trigger]
                    target.contains_key(row) implies self.owner_map()[row] == target[row] by {
                    if row != key {
                        assert(before.contains_key(row));
                        assert(before[row] == target[row]);
                    }
                }
                assert(self.owner_map().dom() =~= target.dom());
                assert(self.owner_map() =~= target);
            }
        }
        proof {
            reveal(index_consistent);
            assert forall|row: u64|
                owners0.contains_key(row) && !touched(rows@, rows@.len() as int, row) implies
                without_owners(#[trigger] owners0[row], gone) == owners0[row] by {
                lemma_without_owners(owners0[row], gone);
                assert forall|k: int| 0 <= k < owners0[row].len() implies !gone.contains(
                    (#[trigger] owners0[row][k]).zone_id,
                ) by {
                    assert(covers(zones0, row, owners0[row][k]));
                }
            }
            assert(self.owner_map() =~= without_zones(owners0, gone));
            assert(self.zones@ =~= zones0.remove_keys(gone));
            lemma_consistent_without(zones0, owners0, gone);
        }
        self.bump_revision();
        assert(self.owner_map() =~= without_zones(owners0, gone));
        true
    }
}

/// Whether one of the first `n` rows has the given identity.
spec fn touched(rows: Seq<FinishedOutputRow>, n: int, row: u64) -> bool {
    exists|j: int| 0 <= j < n && (#[trigger] rows[j]).row_id.raw == row
}

/// The index after the buckets of the first `n` rows were filtered.
spec fn partially_without(
    owners: Map<u64, Seq<FinishedOutputOwner>>,
    rows: Seq<FinishedOutputRow>,
    n: int,
    gone: Set<u64>,
) -> Map<u64, Seq<FinishedOutputOwner>> {
    Map::new(
        |row: u64|
            owners.contains_key(row) && (touched(rows, n, row) ==> without_owners(
                owners[row],
                gone,
            ).len() > 0),
        |row: u64|
            if touched(rows, n, row) {
                without_owners(owners[row], gone)
            } else {
                owners[row]
            },
    )
}

/// Number of known outputs among `gone`.
#[verifier::opaque]
pub open spec fn known_count(zones: Map<u64, FinishedOutputProvenance>, gone: Set<u64>) -> int {
    zones.dom().intersect(gone).len() as int
}

/// `post` is `pre` without the outputs in `gone`.
#[verifier::opaque]
pub open spec fn outputs_dropped(
    pre: OutputProvenance,
    gone: Set<u64>,
    post: OutputProvenance,
) -> bool {
    &&& post.zones@ == pre.zones@.remove_keys(gone)
    &&& post.owner_map() == without_zones(pre.owner_map(), gone)
    &&& post.revision == revision_after(pre.revision, known_count(pre.zones@, gone))
}

/// A span of columns on one physical row.
pub type RowSpan = (RawRowId, usize, usize);

/// Whether a span can own anything: its row is tracked and it is not empty.
pub open spec fn span_is_live(span: RowSpan) -> bool {
    span.0.spec_is_tracked() && span.1 < span.2
}

/// Whether an index entry shares a column with `start..end`.
pub open spec fn overlaps(owner: FinishedOutputOwner, start: usize, end: usize) -> bool {
    start < owner.end_col && owner.start_col < end
}

/// Whether the span hits the `k`-th entry of its row, and that entry belongs
/// to `zone`.
pub open spec fn span_hits(
    owners: Map<u64, Seq<FinishedOutputOwner>>,
    span: RowSpan,
    k: int,
    zone: u64,
) -> bool {
    &&& span_is_live(span)
    &&& owners.contains_key(span.0.raw)
    &&& 0 <= k < owners[span.0.raw].len()
    &&& overlaps(owners[span.0.raw][k], span.1, span.2)
    &&& owners[span.0.raw][k].zone_id == zone
}

/// The outputs that own a column of one of the spans.
#[verifier::opaque]
pub open spec fn zones_hit(
    owners: Map<u64, Seq<FinishedOutputOwner>>,
    spans: Seq<RowSpan>,
) -> Set<u64> {
    Set::new(|zone: u64| hit_among(owners, spans, spans.len() as int, zone))
}

/// Whether one of the first `n` spans hits an entry of `zone`.
pub open spec fn hit_among(
    owners: Map<u64, Seq<FinishedOutputOwner>>,
    spans: Seq<RowSpan>,
    n: int,
    zone: u64,
) -> bool {
    exists|s: int, k: int| 0 <= s < n && #[trigger] span_hits(owners, spans[s], k, zone)
}

/// The index after the first `n` rows of output `zone` were added.
pub open spec fn with_rows(
    owners: Map<u64, Seq<FinishedOutputOwner>>,
    zone: u64,
    rows: Seq<FinishedOutputRow>,
    n: int,
) -> Map<u64, Seq<FinishedOutputOwner>>
    decreases n,
{
    if n <= 0 {
        owners
    } else {
        let before = with_rows(owners, zone, rows, n - 1);
        let key = rows[n - 1].row_id.raw;
        let bucket = if before.contains_key(key) {
            before[key]
        } else {
            Seq::empty()
        };
        before.insert(key, bucket.push(owner_of(zone, rows[n - 1])))
    }
}

/// What adding rows to the index keeps and adds.
proof fn lemma_with_rows(
    owners: Map<u64, Seq<FinishedOutputOwner>>,
    zone: u64,
    rows: Seq<FinishedOutputRow>,
    n: int,
)
    requires
        0 <= n <= rows.len(),
        forall|row: u64| #[trigger] owners.contains_key(row) ==> owners[row].len() > 0,
    ensures
        forall|row: u64| #[trigger]
            owners.contains_key(row) ==> with_rows(owners, zone, rows, n).contains_key(row)
                && owners[row].is_prefix_of(with_rows(owners, zone, rows, n)[row]),
        forall|j: int|
            0 <= j < n ==> with_rows(owners, zone, rows, n).contains_key(
                (#[trigger] rows[j]).row_id.raw,
            ) && with_rows(owners, zone, rows, n)[rows[j].row_id.raw].contains(
                owner_of(zone, rows[j]),
            ),
        forall|row: u64, k: int|
            #![trigger with_rows(owners, zone, rows, n)[row][k]]
            with_rows(owners, zone, rows, n).contains_key(row) && 0 <= k < with_rows(
                owners,
                zone,
                rows,
                n,
            )[row].len() ==> entry_origin(
                owners,
                zone,
                rows,
                n,
                row,
                k,
                with_rows(owners, zone, rows, n)[row][k],
            ),
        forall|row: u64| #[trigger]
            with_rows(owners, zone, rows, n).contains_key(row) ==> with_rows(
                owners,
                zone,
                rows,
                n,
            )[row].len() > 0,
    decreases n,
{
    if n > 0 {
        lemma_with_rows(owners, zone, rows, n - 1);
        let before = with_rows(owners, zone, rows, n - 1);
        let after = with_rows(owners, zone, rows, n);
        let key = rows[n - 1].row_id.raw;
        assert forall|j: int| 0 <= j < n implies after.contains_key((#[trigger] rows[j]).row_id.raw)
            && after[rows[j].row_id.raw].contains(owner_of(zone, rows[j])) by {
            let r = rows[j].row_id.raw;
            if j < n - 1 {
                let m = choose|m: int|
                    0 <= m < before[r].len() && before[r][m] == owner_of(zone, rows[j]);
                assert(after[r][m] == owner_of(zone, rows[j]));
            } else {
                assert(after[r][after[r].len() - 1] == owner_of(zone, rows[j]));
            }
        }
        assert forall|row: u64, k: int|
            #![trigger after[row][k]]
            after.contains_key(row) && 0 <= k < after[row].len() implies entry_origin(
            owners,
            zone,
            rows,
            n,
            row,
            k,
            after[row][k],
        ) by {
            if before.contains_key(row) && k < before[row].len() {
                assert(after[row][k] == before[row][k]);
                assert(entry_origin(owners, zone, rows, n - 1, row, k, before[row][k]));
            } else {
                assert(rows[n - 1].row_id.raw == row);
            }
        }
    } else {
        assert(with_rows(owners, zone, rows, n) == owners);
    }
}

/// Where an entry of the extended index comes from: the index before, or one
/// of the added rows.
pub open spec fn entry_origin(
    owners: Map<u64, Seq<FinishedOutputOwner>>,
    zone: u64,
    rows: Seq<FinishedOutputRow>,
    n: int,
    row: u64,
    k: int,
    entry: FinishedOutputOwner,
) -> bool {
    ||| owners.contains_key(row) && k < owners[row].len() && entry == owners[row][k]
    ||| exists|j: int|
        0 <= j < n && (#[trigger] rows[j]).row_id.raw == row && entry == owner_of(zone, rows[j])
}

/// Appending an item adds it to the set of items.
pub proof fn lemma_push_to_set(items: Seq<u64>, item: u64)
    ensures
        items.push(item).to_set() == items.to_set().insert(item),
{
    let longer = items.push(item);
    assert forall|x: u64| longer.to_set().contains(x) == items.to_set().insert(item).contains(
        x,
    ) by {
        if longer.contains(x) {
            let m = choose|m: int| 0 <= m < longer.len() && longer[m] == x;
            if m < items.len() {
                assert(items[m] == x);
            }
        }
        if items.contains(x) {
            let m = choose|m: int| 0 <= m < items.len() && items[m] == x;
            assert(longer[m] == x);
        }
        assert(longer[items.len() as int] == item);
    }
    assert(longer.to_set() =~= items.to_set().insert(item));
}

impl OutputProvenance {
    /// Forgets every listed output. The result says whether one was known.
    pub fn unregister_all(&mut self, list: &Vec<u64>) -> (changed: bool)
        requires
            old(self).wf(),
        ensures
            final(self).wf(),
            final(self).active == old(self).active,
            outputs_dropped(*old(self), list@.to_set(), *final(self)),
            changed == (known_count(old(self).zones@, list@.to_set()) > 0),
    {
        reveal(outputs_dropped);
        reveal(known_count);
        let ghost zones0 = self.zones@;
        let ghost owners0 = self.owner_map();
        let mut changed = false;
        let mut i: usize = 0;
        proof {
            assert(list@.take(0).to_set() =~= Set::<u64>::empty());
            lemma_without_none(zones0, owners0, Set::<u64>::empty());
            assert(zones0.dom().intersect(Set::<u64>::empty()) =~= Set::<u64>::empty());
        }
        while i < list.len()
            invariant
                i <= list@.len(),
                self.wf(),
                zones0 == old(self).zones@,
                owners0 == old(self).owner_map(),
                self.active == old(self).active,
                outputs_dropped(*old(self), list@.take(i as int).to_set(), *self),
                changed == (known_count(zones0, list@.take(i as int).to_set()) > 0),
            decreases list.len() - i,
        {
            reveal(outputs_dropped);
            reveal(known_count);
            let ghost before = list@.take(i as int).to_set();
            let ghost after = list@.take(i + 1).to_set();
            let zone: u64 = list[i];
            proof {
                assert(list@.take(i + 1) =~= list@.take(i as int).push(zone));
                lemma_push_to_set(list@.take(i as int), zone);
                assert(after =~= before.insert(zone));
                assert(after =~= before.union(set![zone]));
                lemma_without_zones_twice(owners0, before, set![zone]);
                assert(zones0.remove_keys(before).remove_keys(set![zone]) =~= zones0.remove_keys(
                    after,
                ));
                let common = zones0.dom().intersect(before);
                if zones0.remove_keys(before).contains_key(zone) {
                    assert(zones0.dom().intersect(after) =~= common.insert(zone));
                } else {
                    assert(zones0.dom().intersect(after) =~= common);
                }
            }
            if self.unregister(zone) {
                changed = true;
            }
            i = i + 1;
        }
        assert(list@.take(i as int) =~= list@);
        changed
    }

    /// The outputs that own some part of a row, oldest entry first.
    pub fn zones_of_row(&self, row: u64) -> (list: Vec<u64>)
        ensures
            list@.to_set() == zones_on_row(self.owner_map(), row),
    {
        let mut list: Vec<u64> = Vec::new();
        let ghost owners = self.owner_map();
        match self.owners.get(&row) {
            Some(bucket) => {
                let mut k: usize = 0;
                while k < bucket.len()
                    invariant
                        k <= bucket@.len(),
                        list@.len() == k,
                        forall|m: int| 0 <= m < k ==> #[trigger] list@[m] == bucket@[m].zone_id,
                    decreases bucket.len() - k,
                {
                    list.push(bucket[k].zone_id);
                    k = k + 1;
                }
                proof {
                    assert(owners.contains_key(row) && owners[row] == bucket@);
                    assert forall|zone: u64| list@.to_set().contains(zone) == zones_on_row(
                        owners,
                        row,
                    ).contains(zone) by {
                        if list@.to_set().contains(zone) {
                            let m = choose|m: int| 0 <= m < list@.len() && list@[m] == zone;
                            assert(owners[row][m].zone_id == zone);
                        }
                        if zones_on_row(owners, row).contains(zone) {
                            let m = choose|m: int|
                                0 <= m < owners[row].len() && (#[trigger] owners[row][m]).zone_id
                                    == zone;
                            assert(list@[m] == zone);
                        }
                    }
                    assert(list@.to_set() =~= zones_on_row(owners, row));
                }
            },
            None => {
                assert(list@.to_set() =~= zones_on_row(owners, row));
            },
        }
        list
    }

    /// The outputs that own a column of one of the spans.
    pub fn zones_overlapping(&self, spans: &Vec<RowSpan>) -> (list: Vec<u64>)
        ensures
            list@.to_set() == zones_hit(self.owner_map(), spans@),
    {
        let mut list: Vec<u64> = Vec::new();
        let ghost owners = self.owner_map();
        let mut s: usize = 0;
        while s < spans.len()
            invariant
                s <= spans@.len(),
                owners == self.owner_map(),
                forall|m: int|
                    0 <= m < list@.len() ==> hit_among(
                        owners,
                        spans@,
                        s as int,
                        #[trigger] list@[m],
                    ),
                forall|t: int, k: int, zone: u64|
                    0 <= t < s && #[trigger] span_hits(owners, spans@[t], k, zone)
                        ==> list@.contains(zone),
            decreases spans.len() - s,
        {
            let span = spans[s];
            if span.0.is_tracked() && span.1 < span.2 {
                match self.owners.get(&span.0.raw) {
                    Some(bucket) => {
                        assert(owners.contains_key(span.0.raw) && owners[span.0.raw] == bucket@);
                        let mut k: usize = 0;
                        while k < bucket.len()
                            invariant
                                k <= bucket@.len(),
                                s < spans@.len(),
                                span == spans@[s as int],
                                span_is_live(span),
                                owners.contains_key(span.0.raw),
                                owners[span.0.raw] == bucket@,
                                forall|m: int|
                                    0 <= m < list@.len() ==> hit_among(
                                        owners,
                                        spans@,
                                        s + 1,
                                        #[trigger] list@[m],
                                    ),
                                forall|t: int, j: int, zone: u64|
                                    0 <= t < s && #[trigger] span_hits(owners, spans@[t], j, zone)
                                        ==> list@.contains(zone),
                                forall|j: int, zone: u64|
                                    j < k && #[trigger] span_hits(owners, span, j, zone)
                                        ==> list@.contains(zone),
                            decreases bucket.len() - k,
                        {
                            let owner = bucket[k];
                            let ghost before = list@;
                            if span.1 < owner.end_col && owner.start_col < span.2 {
                                list.push(owner.zone_id);
                                assert(span_hits(
                                    owners,
                                    spans@[s as int],
                                    k as int,
                                    owner.zone_id,
                                ));
                                assert(list@[before.len() as int] == owner.zone_id);
                                assert(forall|zone: u64| before.contains(zone) ==> list@.contains(zone)) by {
                                    assert forall|zone: u64| before.contains(zone) implies list@.contains(zone) by {
                                        let m = choose|m: int| 0 <= m < before.len() && before[m] == zone;
                                        assert(list@[m] == zone);
                                    }
                                }
                            }
                            k = k + 1;
                        }
                    },
                    None => {},
                }
            }
            s = s + 1;
        }
        proof {
            reveal(zones_hit);
            assert forall|zone: u64| list@.to_set().contains(zone) == zones_hit(
                owners,
                spans@,
            ).contains(zone) by {
                if list@.to_set().contains(zone) {
                    let m = choose|m: int| 0 <= m < list@.len() && list@[m] == zone;
                    assert(list@[m] == zone);
                }
            }
            assert(list@.to_set() =~= zones_hit(owners, spans@));
        }
        list
    }

    /// Records a finished output, in place of an earlier one of the same zone.
    pub fn register(&mut self, provenance: FinishedOutputProvenance)
        requires
            old(self).wf(),
        ensures
            final(self).wf(),
            final(self).active == old(self).active,
            final(self).zones@ == old(self).zones@.insert(provenance.range.zone_id, provenance),
            final(self).owner_map() == with_rows(
                without_zones(old(self).owner_map(), set![provenance.range.zone_id]),
                provenance.range.zone_id,
                provenance.rows@,
                provenance.rows@.len() as int,
            ),
            final(self).revision == revision_after(
                old(self).revision,
                if old(self).zones@.contains_key(provenance.range.zone_id) {
                    2int
                } else {
                    1int
                },
            ),
    {
        let zone: u64 = provenance.range.zone_id;
        let _ = self.unregister(zone);
        let ghost mid_zones = self.zones@;
        let ghost mid = self.owner_map();
        let ghost rows = provenance.rows@;
        let mut i: usize = 0;
        while i < provenance.rows.len()
            invariant
                i <= rows.len(),
                rows == provenance.rows@,
                zone == provenance.range.zone_id,
                self.zones@ == mid_zones,
                self.active == old(self).active,
                self.revision == if old(self).zones@.contains_key(zone) {
                    revision_after(old(self).revision, 1)
                } else {
                    old(self).revision
                },
                self.owner_map() == with_rows(mid, zone, rows, i as int),
            decreases provenance.rows.len() - i,
        {
            let row = provenance.rows[i];
            let key: u64 = row.row_id.raw;
            let ghost before = self.owner_map();
            let mut bucket: Vec<FinishedOutputOwner> = match self.owners.remove(&key) {
                Some(bucket) => {
                    assert(before.contains_key(key) && before[key] == bucket@);
                    bucket
                },
                None => {
                    assert(!before.contains_key(key));
                    Vec::new()
                },
            };
            bucket.push(
                FinishedOutputOwner {
                    zone_id: zone,
                    start_col: row.start_col,
                    end_col: row.end_col,
                },
            );
            let ghost bucket_view = bucket@;
            self.owners.insert(key, bucket);
            i = i + 1;
            proof {
                let target = with_rows(mid, zone, rows, i as int);
                assert(target == before.insert(key, bucket_view));
                assert(forall|r: u64| r != key ==> (#[trigger] before.contains_key(r))
                    == self.owner_map().contains_key(r));
                assert(self.owner_map() =~= target);
            }
        }
        let ghost added = self.owner_map();
        self.zones.insert(zone, provenance);
        proof {
            assert(self.owner_map() =~= added);
            assert(self.zones@ =~= old(self).zones@.insert(zone, provenance));
            lemma_register_consistent(mid_zones, mid, provenance);
        }
        self.bump_revision();
        assert(self.owner_map() =~= added);
    }

    /// Forgets every finished output. The result says whether one was known.
    pub fn clear_finished(&mut self) -> (changed: bool)
        requires
            old(self).wf(),
        ensures
            final(self).wf(),
            final(self).active == old(self).active,
            final(self).zones@ == Map::<u64, FinishedOutputProvenance>::empty(),
            final(self).owner_map() == Map::<u64, Seq<FinishedOutputOwner>>::empty(),
            changed == (old(self).zones@.dom().len() > 0 || old(self).owner_map().dom().len() > 0),
            final(self).revision == if changed {
                revision_after(old(self).revision, 1)
            } else {
                old(self).revision
            },
    {
        proof {
            reveal(index_consistent);
            assert(self.owner_map().dom() =~= self.owners@.dom());
        }
        if self.zones.len() > 0 || self.owners.len() > 0 {
            self.zones.clear();
            self.owners.clear();
            self.bump_revision();
            assert(self.owner_map() =~= Map::<u64, Seq<FinishedOutputOwner>>::empty());
            true
        } else {
            assert(self.zones@ =~= Map::<u64, FinishedOutputProvenance>::empty());
            assert(self.owner_map() =~= Map::<u64, Seq<FinishedOutputOwner>>::empty());
            false
        }
    }
}

/// Adding an output together with its index entries keeps the index
/// consistent.
proof fn lemma_register_consistent(
    zones: Map<u64, FinishedOutputProvenance>,
    owners: Map<u64, Seq<FinishedOutputOwner>>,
    provenance: FinishedOutputProvenance,
)
    requires
        index_consistent(zones, owners),
        !zones.contains_key(provenance.range.zone_id),
    ensures
        index_consistent(
            zones.insert(provenance.range.zone_id, provenance),
            with_rows(
                owners,
                provenance.range.zone_id,
                provenance.rows@,
                provenance.rows@.len() as int,
            ),
        ),
{
    reveal(index_consistent);
    let zone = provenance.range.zone_id;
    let rows = provenance.rows@;
    let zones2 = zones.insert(zone, provenance);
    let owners2 = with_rows(owners, zone, rows, rows.len() as int);
    lemma_with_rows(owners, zone, rows, rows.len() as int);
    assert forall|z: u64, i: int|
        #![trigger zones2[z].rows@[i]]
        zones2.contains_key(z) && 0 <= i < zones2[z].rows@.len() implies {
        let row = zones2[z].rows@[i];
        owners2.contains_key(row.row_id.raw) && owners2[row.row_id.raw].contains(owner_of(z, row))
    } by {
        let row = zones2[z].rows@[i];
        if z == zone {
            assert(rows[i] == row);
        } else {
            let bucket = owners[zones[z].rows@[i].row_id.raw];
            let m = choose|m: int| 0 <= m < bucket.len() && bucket[m] == owner_of(z, row);
            assert(owners2[row.row_id.raw][m] == owner_of(z, row));
        }
    }
    assert forall|row: u64, k: int|
        #![trigger owners2[row][k]]
        owners2.contains_key(row) && 0 <= k < owners2[row].len() implies covers(
        zones2,
        row,
        owners2[row][k],
    ) by {
        let owner = owners2[row][k];
        assert(entry_origin(owners, zone, rows, rows.len() as int, row, k, owner));
        if owners.contains_key(row) && k < owners[row].len() && owner == owners[row][k] {
            assert(covers(zones, row, owners[row][k]));
            let i = choose|i: int|
                0 <= i < zones[owner.zone_id].rows@.len() && (
                #[trigger] zones[owner.zone_id].rows@[i]).row_id.raw == row && owner == owner_of(
                    owner.zone_id,
                    zones[owner.zone_id].rows@[i],
                );
            assert(zones2[owner.zone_id].rows@[i].row_id.raw == row);
        } else {
            let j = choose|j: int|
                0 <= j < rows.len() && (#[trigger] rows[j]).row_id.raw == row && owner == owner_of(
                    zone,
                    rows[j],
                );
            assert(zones2[zone].rows@[j].row_id.raw == row);
        }
    }
}

/// The outputs that lose a part when row `id` disappears.
#[verifier::opaque]
pub open spec fn zones_losing_row(pre: OutputProvenance, id: RawRowId) -> Set<u64> {
    if id.spec_is_tracked() {
        zones_on_row(pre.owner_map(), id.raw)
    } else {
        Set::empty()
    }
}

/// The running output after row `id` disappeared: it is given up when it began
/// or reached its end on that row.
pub open spec fn active_after_losing(
    active: Option<ActiveOutputProvenance>,
    id: RawRowId,
) -> Option<ActiveOutputProvenance> {
    match active {
        Some(a) => if id.spec_is_tracked() && (a.start_row_id == id || a.extent_row_id == Some(
            id,
        )) {
            None
        } else {
            active
        },
        None => None,
    }
}

/// `post` is `pre` after row `id` disappeared.
#[verifier::opaque]
pub open spec fn row_forgotten(
    pre: OutputProvenance,
    id: RawRowId,
    post: OutputProvenance,
) -> bool {
    &&& outputs_dropped(pre, zones_losing_row(pre, id), post)
    &&& post.active == active_after_losing(pre.active, id)
}

impl OutputProvenance {
    /// Row `id` disappears. The result says whether a finished output was lost.
    pub fn forget_row(&mut self, id: RawRowId) -> (changed: bool)
        requires
            old(self).wf(),
        ensures
            final(self).wf(),
            row_forgotten(*old(self), id, *final(self)),
            changed == (known_count(old(self).zones@, zones_losing_row(*old(self), id)) > 0),
    {
        reveal(outputs_dropped);
        reveal(row_forgotten);
        reveal(known_count);
        reveal(zones_losing_row);
        if !id.is_tracked() {
            proof {
                lemma_without_none(self.zones@, self.owner_map(), Set::<u64>::empty());
                assert(self.zones@.dom().intersect(Set::<u64>::empty()) =~= Set::<u64>::empty());
            }
            return false;
        }
        let list = self.zones_of_row(id.raw);
        let changed = self.unregister_all(&list);
        if let Some(active) = self.active {
            if active.start_row_id == id || active.extent_row_id == Some(id) {
                self.active = None;
            }
        }
        proof {
            assert(self.owner_map() =~= without_zones(
                old(self).owner_map(),
                zones_losing_row(*old(self), id),
            ));
        }
        changed
    }
}

} // verus!
