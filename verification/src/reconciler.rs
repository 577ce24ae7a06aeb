//! The heading list reconciler: keeps a presentation-facing ordered list of
//! entries, each a heading record under a stable slot identifier, in sync
//! with the latest heading list from the analyzer.
//!
//! The policy is an index-aligned diff. Position `i` of the previous list is
//! compared with position `i` of the new list: where level and text agree,
//! the entry keeps its slot identifier (an `Update` operation reports a
//! changed source offset); everywhere else the old entry, if any, is removed
//! and a fresh slot identifier is assigned. Slot identifiers come from a
//! monotonically increasing counter and are never reused within a session.

use vstd::prelude::*;

use crate::analyzer::{heading_views, HeadingRecord, HeadingView};

verus! {

/// Mathematical model of one reconciled entry.
#[verifier::ext_equal]
pub ghost struct EntryView {
    pub slot_id: int,
    pub record: HeadingView,
}

/// One heading record as materialized in the presentation-facing list, under
/// its stable slot identifier.
pub struct ReconciledHeadingEntry {
    /// Opaque identity of this entry, stable across reconciliation passes.
    pub slot_id: u64,
    /// The heading record currently shown in this slot.
    pub record: HeadingRecord,
}

impl View for ReconciledHeadingEntry {
    type V = EntryView;

    open spec fn view(&self) -> EntryView {
        EntryView { slot_id: self.slot_id as int, record: self.record@ }
    }
}

/// The views of a sequence of reconciled entries, in order.
pub open spec fn entry_views(s: Seq<ReconciledHeadingEntry>) -> Seq<EntryView> {
    s.map_values(|e: ReconciledHeadingEntry| e@)
}

/// Mathematical model of one change operation.
#[verifier::ext_equal]
pub ghost enum OpView {
    Insert { position: int, entry: EntryView },
    Remove { slot_id: int },
    Update { slot_id: int, record: HeadingView },
}

/// One step a downstream consumer must apply to stay in sync. Under the
/// index-aligned policy a reordering of entries is reported as removals and
/// insertions; no separate reorder operation exists.
pub enum ChangeOp {
    /// A new entry appears at this position of the list.
    Insert { position: usize, entry: ReconciledHeadingEntry },
    /// The entry with this slot identifier leaves the list.
    Remove { slot_id: u64 },
    /// The entry with this slot identifier now shows this record.
    Update { slot_id: u64, record: HeadingRecord },
}

impl View for ChangeOp {
    type V = OpView;

    open spec fn view(&self) -> OpView {
        match self {
            ChangeOp::Insert { position, entry } => OpView::Insert {
                position: *position as int,
                entry: entry@,
            },
            ChangeOp::Remove { slot_id } => OpView::Remove { slot_id: *slot_id as int },
            ChangeOp::Update { slot_id, record } => OpView::Update {
                slot_id: *slot_id as int,
                record: record@,
            },
        }
    }
}

/// The views of a sequence of change operations, in order.
pub open spec fn op_views(s: Seq<ChangeOp>) -> Seq<OpView> {
    s.map_values(|o: ChangeOp| o@)
}

/// Two heading records agree on level and text; only such entries keep their
/// slot identifier across a pass.
pub open spec fn pair_eq(a: HeadingView, b: HeadingView) -> bool {
    a.level == b.level && a.text == b.text
}

/// Position `i` of the new list keeps the slot of position `i` of the
/// previous list.
pub open spec fn keeps(prev: Seq<EntryView>, hs: Seq<HeadingView>, i: int) -> bool {
    &&& 0 <= i < hs.len()
    &&& i < prev.len()
    &&& pair_eq(prev[i].record, hs[i])
}

/// How many of the first `i` positions of the new list are assigned fresh
/// slot identifiers.
pub open spec fn fresh_before(prev: Seq<EntryView>, hs: Seq<HeadingView>, i: int) -> int
    decreases i,
{
    if i <= 0 {
        0
    } else {
        fresh_before(prev, hs, i - 1) + if keeps(prev, hs, i - 1) {
            0int
        } else {
            1int
        }
    }
}

/// The slot identifier assigned to position `i` of the new list, with
/// `next0` the counter value at the start of the pass.
pub open spec fn slot_at(prev: Seq<EntryView>, hs: Seq<HeadingView>, next0: int, i: int) -> int {
    if keeps(prev, hs, i) {
        prev[i].slot_id
    } else {
        next0 + fresh_before(prev, hs, i)
    }
}

/// The entry materialized at position `i` of the new list.
pub open spec fn entry_at(
    prev: Seq<EntryView>,
    hs: Seq<HeadingView>,
    next0: int,
    i: int,
) -> EntryView {
    EntryView { slot_id: slot_at(prev, hs, next0, i), record: hs[i] }
}

/// The reconciled list after a pass: the new heading records in order, each
/// under its assigned slot identifier.
pub open spec fn reconciled_entries(
    prev: Seq<EntryView>,
    hs: Seq<HeadingView>,
    next0: int,
) -> Seq<EntryView> {
    Seq::new(hs.len(), |i: int| entry_at(prev, hs, next0, i))
}

/// The change operations reported for position `i` of the new list.
pub open spec fn op_step(
    prev: Seq<EntryView>,
    hs: Seq<HeadingView>,
    next0: int,
    i: int,
) -> Seq<OpView> {
    if keeps(prev, hs, i) {
        if prev[i].record == hs[i] {
            Seq::empty()
        } else {
            seq![OpView::Update { slot_id: prev[i].slot_id, record: hs[i] }]
        }
    } else {
        let ins = seq![
            OpView::Insert { position: i, entry: entry_at(prev, hs, next0, i) },
        ];
        if i < prev.len() {
            seq![OpView::Remove { slot_id: prev[i].slot_id }] + ins
        } else {
            ins
        }
    }
}

/// The change operations for the first `i` positions of the new list.
pub open spec fn ops_upto(
    prev: Seq<EntryView>,
    hs: Seq<HeadingView>,
    next0: int,
    i: int,
) -> Seq<OpView>
    decreases i,
{
    if i <= 0 {
        Seq::empty()
    } else {
        ops_upto(prev, hs, next0, i - 1) + op_step(prev, hs, next0, i - 1)
    }
}

/// The removal operations for previous entries at positions `[lo, i)`, which
/// have no counterpart in the new list.
pub open spec fn removals_upto(prev: Seq<EntryView>, lo: int, i: int) -> Seq<OpView>
    decreases i - lo,
{
    if i <= lo {
        Seq::empty()
    } else {
        removals_upto(prev, lo, i - 1).push(OpView::Remove { slot_id: prev[i - 1].slot_id })
    }
}

/// All change operations of a pass, in the order they are reported.
pub open spec fn spec_ops(
    prev: Seq<EntryView>,
    hs: Seq<HeadingView>,
    next0: int,
) -> Seq<OpView> {
    ops_upto(prev, hs, next0, hs.len() as int) + removals_upto(
        prev,
        hs.len() as int,
        prev.len() as int,
    )
}

/// Mathematical model of the reconciler's state.
#[verifier::ext_equal]
pub ghost struct ReconcilerView {
    pub entries: Seq<EntryView>,
    pub next_slot_id: int,
}

/// Every slot identifier in the list is unique and below the counter's next
/// value.
pub open spec fn reconciler_inv(entries: Seq<EntryView>, next_slot_id: int) -> bool {
    &&& forall|i: int, j: int|
        0 <= i < j < entries.len() ==> entries[i].slot_id != entries[j].slot_id
    &&& forall|i: int| 0 <= i < entries.len() ==> 0 <= #[trigger] entries[i].slot_id
        < next_slot_id
    &&& next_slot_id >= 0
}

/// Maintains the presentation-facing ordered list of heading entries and the
/// monotonically increasing slot identifier counter of one session.
pub struct Reconciler {
    entries: Vec<ReconciledHeadingEntry>,
    next_slot_id: u64,
}

impl View for Reconciler {
    type V = ReconcilerView;

    closed spec fn view(&self) -> ReconcilerView {
        ReconcilerView {
            entries: entry_views(self.entries@),
            next_slot_id: self.next_slot_id as int,
        }
    }
}

/// Copies a heading record.
pub fn clone_record(r: &HeadingRecord) -> (c: HeadingRecord)
    ensures
        c@ == r@,
{
    HeadingRecord { level: r.level, text: r.text.clone(), source_offset: r.source_offset }
}

/// Copies a reconciled entry.
pub fn clone_entry(e: &ReconciledHeadingEntry) -> (c: ReconciledHeadingEntry)
    ensures
        c@ == e@,
{
    ReconciledHeadingEntry { slot_id: e.slot_id, record: clone_record(&e.record) }
}

proof fn lemma_fresh_before_bounds(prev: Seq<EntryView>, hs: Seq<HeadingView>, a: int, b: int)
    requires
        0 <= a <= b,
    ensures
        fresh_before(prev, hs, a) <= fresh_before(prev, hs, b) <= fresh_before(prev, hs, a) + (b
            - a),
    decreases b - a,
{
    if a < b {
        lemma_fresh_before_bounds(prev, hs, a, b - 1);
    }
}

/// Reconciliation preserves order: the list produced by a pass over `hs` is
/// exactly as long as `hs` and carries its records in the same order.
pub proof fn lemma_reconcile_preserves_order(
    prev: Seq<EntryView>,
    hs: Seq<HeadingView>,
    next0: int,
)
    ensures
        reconciled_entries(prev, hs, next0).len() == hs.len(),
        forall|i: int|
            0 <= i < hs.len() ==> #[trigger] reconciled_entries(prev, hs, next0)[i].record
                == hs[i],
{
}

/// After a pass the assigned slot identifiers are pairwise distinct and all
/// below the advanced counter, so the invariant is preserved.
pub proof fn lemma_reconcile_preserves_inv(
    prev: Seq<EntryView>,
    hs: Seq<HeadingView>,
    next0: int,
)
    requires
        reconciler_inv(prev, next0),
    ensures
        reconciler_inv(
            reconciled_entries(prev, hs, next0),
            next0 + fresh_before(prev, hs, hs.len() as int),
        ),
{
    let cur = reconciled_entries(prev, hs, next0);
    let next1 = next0 + fresh_before(prev, hs, hs.len() as int);
    lemma_fresh_before_bounds(prev, hs, 0, hs.len() as int);
    assert forall|i: int| 0 <= i < cur.len() implies 0 <= #[trigger] cur[i].slot_id < next1 by {
        assert(cur[i] == entry_at(prev, hs, next0, i));
        lemma_fresh_before_bounds(prev, hs, 0, i);
        lemma_fresh_before_bounds(prev, hs, i + 1, hs.len() as int);
        assert(fresh_before(prev, hs, i + 1) == fresh_before(prev, hs, i) + if keeps(
            prev,
            hs,
            i,
        ) {
            0int
        } else {
            1int
        });
    }
    assert forall|i: int, j: int| 0 <= i < j < cur.len() implies cur[i].slot_id
        != cur[j].slot_id by {
        assert(cur[i] == entry_at(prev, hs, next0, i));
        assert(cur[j] == entry_at(prev, hs, next0, j));
        lemma_fresh_before_bounds(prev, hs, 0, i);
        lemma_fresh_before_bounds(prev, hs, i + 1, j);
        assert(fresh_before(prev, hs, i + 1) == fresh_before(prev, hs, i) + if keeps(
            prev,
            hs,
            i,
        ) {
            0int
        } else {
            1int
        });
        if keeps(prev, hs, i) && keeps(prev, hs, j) {
            assert(prev[i].slot_id != prev[j].slot_id);
        }
    }
}

impl Reconciler {
    /// A reconciler at session start: no entries, counter at zero.
    pub fn new() -> (r: Reconciler)
        ensures
            r@ == (ReconcilerView { entries: Seq::<EntryView>::empty(), next_slot_id: 0int }),
            reconciler_inv(r@.entries, r@.next_slot_id),
    {
        let r = Reconciler { entries: Vec::new(), next_slot_id: 0 };
        proof {
            assert(r@ =~= ReconcilerView { entries: Seq::<EntryView>::empty(), next_slot_id: 0int });
        }
        r
    }

    /// True when a pass over `n` new headings cannot exhaust the slot
    /// identifier counter.
    pub fn can_accept(&self, n: usize) -> (r: bool)
        ensures
            r == (self@.next_slot_id + n <= u64::MAX),
    {
        n as u64 <= u64::MAX - self.next_slot_id
    }

    /// The current reconciled list, in the order of the latest pass.
    pub fn current_state(&self) -> (r: &Vec<ReconciledHeadingEntry>)
        ensures
            entry_views(r@) == self@.entries,
    {
        &self.entries
    }

    /// Brings the reconciled list in sync with `new_headings` and reports the
    /// change operations of the pass. The resulting list carries exactly the
    /// new records, in order; entries whose level and text are unchanged at
    /// their position keep their slot identifier, all others receive fresh
    /// ones.
    pub fn reconcile(&mut self, new_headings: &Vec<HeadingRecord>) -> (out: (
        Vec<ReconciledHeadingEntry>,
        Vec<ChangeOp>,
    ))
        requires
            reconciler_inv(old(self)@.entries, old(self)@.next_slot_id),
            old(self)@.next_slot_id + new_headings@.len() <= u64::MAX,
        ensures
            final(self)@.entries == reconciled_entries(
                old(self)@.entries,
                heading_views(new_headings@),
                old(self)@.next_slot_id,
            ),
            final(self)@.next_slot_id == old(self)@.next_slot_id + fresh_before(
                old(self)@.entries,
                heading_views(new_headings@),
                new_headings@.len() as int,
            ),
            entry_views(out.0@) == final(self)@.entries,
            op_views(out.1@) == spec_ops(
                old(self)@.entries,
                heading_views(new_headings@),
                old(self)@.next_slot_id,
            ),
            reconciler_inv(final(self)@.entries, final(self)@.next_slot_id),
    {
        let ghost prev: Seq<EntryView> = self@.entries;
        let ghost hs: Seq<HeadingView> = heading_views(new_headings@);
        let ghost next0: int = self@.next_slot_id as int;
        let n: usize = new_headings.len();
        let mut entries: Vec<ReconciledHeadingEntry> = Vec::new();
        let mut ops: Vec<ChangeOp> = Vec::new();
        let mut created: u64 = 0;
        let mut i: usize = 0;
        while i < n
            invariant
                n == new_headings@.len(),
                hs == heading_views(new_headings@),
                prev == entry_views(self.entries@),
                next0 == self.next_slot_id as int,
                next0 + n <= u64::MAX,
                i <= n,
                created == fresh_before(prev, hs, i as int),
                created <= i,
                entries@.len() == i,
                forall|j: int| 0 <= j < i ==> (#[trigger] entries@[j])@ == entry_at(
                    prev,
                    hs,
                    next0,
                    j,
                ),
                op_views(ops@) == ops_upto(prev, hs, next0, i as int),
            decreases n - i,
        {
            proof {
                assert(hs[i as int] == new_headings@[i as int]@);
            }
            let keep = i < self.entries.len() && self.entries[i].record.level
                == new_headings[i].level && self.entries[i].record.text == new_headings[i].text;
            proof {
                assert(i < self.entries@.len() ==> prev[i as int] == (#[trigger] self.entries@[i as int])@);
                assert(keep == keeps(prev, hs, i as int));
            }
            if keep {
                let slot: u64 = self.entries[i].slot_id;
                if self.entries[i].record.source_offset != new_headings[i].source_offset {
                    let op = ChangeOp::Update {
                        slot_id: slot,
                        record: clone_record(&new_headings[i]),
                    };
                    proof {
                        assert(prev[i as int].record != hs[i as int]);
                        assert(op_views(ops@.push(op)) =~= op_views(ops@).push(op@));
                        assert(op_views(ops@).push(op@) =~= ops_upto(prev, hs, next0, i as int)
                            + op_step(prev, hs, next0, i as int));
                    }
                    ops.push(op);
                } else {
                    proof {
                        assert(prev[i as int].record =~= hs[i as int]);
                        assert(ops_upto(prev, hs, next0, i as int + 1) =~= ops_upto(
                            prev,
                            hs,
                            next0,
                            i as int,
                        ));
                    }
                }
                let entry = ReconciledHeadingEntry {
                    slot_id: slot,
                    record: clone_record(&new_headings[i]),
                };
                proof {
                    assert(entry@ == entry_at(prev, hs, next0, i as int));
                }
                entries.push(entry);
            } else {
                if i < self.entries.len() {
                    let rm = ChangeOp::Remove { slot_id: self.entries[i].slot_id };
                    proof {
                        assert(rm@ == (OpView::Remove { slot_id: prev[i as int].slot_id }));
                        assert(op_views(ops@.push(rm)) =~= op_views(ops@).push(rm@));
                    }
                    ops.push(rm);
                }
                let slot: u64 = self.next_slot_id + created;
                created = created + 1;
                let entry = ReconciledHeadingEntry {
                    slot_id: slot,
                    record: clone_record(&new_headings[i]),
                };
                proof {
                    assert(entry@ == entry_at(prev, hs, next0, i as int));
                }
                let ins = ChangeOp::Insert { position: i, entry: clone_entry(&entry) };
                proof {
                    assert(op_views(ops@.push(ins)) =~= op_views(ops@).push(ins@));
                    assert(op_views(ops@).push(ins@) =~= ops_upto(prev, hs, next0, i as int)
                        + op_step(prev, hs, next0, i as int));
                }
                ops.push(ins);
                entries.push(entry);
            }
            i = i + 1;
        }
        let m: usize = self.entries.len();
        proof {
            assert(op_views(ops@) =~= ops_upto(prev, hs, next0, n as int) + removals_upto(
                prev,
                n as int,
                n as int,
            ));
        }
        if n < m {
            let mut r: usize = n;
            while r < m
                invariant
                    n <= r <= m,
                    m == self.entries@.len(),
                    prev == entry_views(self.entries@),
                    hs == heading_views(new_headings@),
                    next0 == self.next_slot_id as int,
                    op_views(ops@) == ops_upto(prev, hs, next0, n as int) + removals_upto(
                        prev,
                        n as int,
                        r as int,
                    ),
                decreases m - r,
            {
                proof {
                    assert(prev[r as int] == (#[trigger] self.entries@[r as int])@);
                }
                let rm = ChangeOp::Remove { slot_id: self.entries[r].slot_id };
                proof {
                    assert(rm@ == (OpView::Remove { slot_id: prev[r as int].slot_id }));
                    assert(op_views(ops@.push(rm)) =~= op_views(ops@).push(rm@));
                    assert(op_views(ops@).push(rm@) =~= ops_upto(prev, hs, next0, n as int)
                        + removals_upto(prev, n as int, r as int + 1));
                }
                ops.push(rm);
                r = r + 1;
            }
        }
        self.entries = entries;
        self.next_slot_id = self.next_slot_id + created;
        proof {
            assert(entry_views(self.entries@) =~= reconciled_entries(prev, hs, next0));
            assert(op_views(ops@) == spec_ops(prev, hs, next0));
            lemma_reconcile_preserves_inv(prev, hs, next0);
        }
        let snapshot = clone_entries(&self.entries);
        (snapshot, ops)
    }
}

/// Copies a list of reconciled entries, in order.
pub fn clone_entries(v: &Vec<ReconciledHeadingEntry>) -> (r: Vec<ReconciledHeadingEntry>)
    ensures
        entry_views(r@) == entry_views(v@),
{
    let mut r: Vec<ReconciledHeadingEntry> = Vec::new();
    let mut i: usize = 0;
    while i < v.len()
        invariant
            i <= v@.len(),
            r@.len() == i,
            forall|j: int| 0 <= j < i ==> (#[trigger] r@[j])@ == v@[j]@,
        decreases v@.len() - i,
    {
        r.push(clone_entry(&v[i]));
        i = i + 1;
    }
    proof {
        assert(entry_views(r@) =~= entry_views(v@));
    }
    r
}

} // verus!
