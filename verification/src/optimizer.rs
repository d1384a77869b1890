//! The frame-order optimizer's driver state.
//!
//! A run visits every frame of the rotation exactly once, in a seeded random
//! order.  For each visited frame the (unverified) search evaluates all
//! index-pair and pattern combinations with floating-point scores and hands
//! the winning combination back as a [`ChoiceSummary`]; this module keeps the
//! schedule and the growing result list honest: every frame index is visited
//! once, every recorded choice is tagged with its original frame index and has
//! a non-empty pattern, and the accepted-point count grows by exactly the
//! number of lit slots of each winner.

use crate::pattern::ActivationPattern;
use crate::shuffle::shuffled_of;
use crate::shuffle::shuffled_range;
use vstd::prelude::*;

verus! {

/// The winning combination for one frame: an LED index on each panel and the
/// activation pattern that says which of the four candidate slots are lit.
#[derive(Clone, Copy, Debug, PartialEq, Eq, Structural)]
pub struct ChoiceSummary {
    pub index1: usize,
    pub index2: usize,
    pub pattern: ActivationPattern,
}

impl ChoiceSummary {
    /// A choice is well-formed when both LED indices address a slot of the
    /// panel and at least one slot is lit.
    pub open spec fn wf(self, panel_size: usize) -> bool {
        &&& self.index1 < panel_size
        &&& self.index2 < panel_size
        &&& self.pattern.is_nonempty()
    }
}

/// One processed frame: the original frame index and the winning choice.
#[derive(Clone, Copy, Debug, PartialEq, Eq, Structural)]
pub struct FrameRecord {
    pub frame: usize,
    pub choice: ChoiceSummary,
}

/// The total number of lit slots over a sequence of frame records, which is
/// the number of points the corresponding run has accepted.
pub open spec fn total_lits(s: Seq<FrameRecord>) -> int
    decreases s.len(),
{
    if s.len() == 0 {
        0
    } else {
        total_lits(s.drop_last()) + s.last().choice.pattern.spec_lit_count()
    }
}

/// Driver state of one optimizer run: the seeded visitation order over all
/// frames, the records collected so far (one per visited frame), and the
/// number of points accepted so far.
pub struct Optimizer {
    pub panel_size: usize,
    pub frame_count: usize,
    pub order: Vec<usize>,
    pub results: Vec<FrameRecord>,
    pub accepted: usize,
}

impl Optimizer {
    /// Well-formedness: the order is a permutation of `0..frame_count`, the
    /// results follow it one-to-one with well-formed choices, and `accepted`
    /// counts their lit slots.
    pub open spec fn wf(self) -> bool {
        &&& self.frame_count <= usize::MAX / 4
        &&& self.order@.len() == self.frame_count
        &&& self.order@.no_duplicates()
        &&& forall|i: int| 0 <= i < self.order@.len() ==> self.order@[i] < self.frame_count
        &&& forall|f: usize| f < self.frame_count ==> self.order@.contains(f)
        &&& self.results@.len() <= self.frame_count
        &&& forall|i: int|
            0 <= i < self.results@.len() ==> (#[trigger] self.results@[i]).frame == self.order@[i]
        &&& forall|i: int|
            0 <= i < self.results@.len() ==> (#[trigger] self.results@[i]).choice.wf(
                self.panel_size,
            )
        &&& self.accepted == total_lits(self.results@)
    }

    /// Starts a run over `frame_count` frames: the visitation order is the
    /// permutation of `0..frame_count` drawn from `seed`, and nothing is
    /// recorded yet.
    pub fn new(frame_count: usize, panel_size: usize, seed: u64) -> (r: Self)
        requires
            frame_count <= usize::MAX / 4,
        ensures
            r.wf(),
            r.panel_size == panel_size,
            r.frame_count == frame_count,
            r.order@ == shuffled_of(seed, frame_count),
            r.results@.len() == 0,
            r.accepted == 0,
    {
        let order = shuffled_range(frame_count, seed);
        Optimizer { panel_size, frame_count, order, results: Vec::new(), accepted: 0 }
    }

    /// True once every frame has been visited.
    pub fn done(&self) -> (b: bool)
        ensures
            b <==> self.results@.len() == self.frame_count,
    {
        self.results.len() == self.frame_count
    }

    /// How many frames have been visited so far.
    pub fn frames_done(&self) -> (n: usize)
        ensures
            n == self.results@.len(),
    {
        self.results.len()
    }

    /// The original index of the frame to search next.
    pub fn current_frame(&self) -> (f: usize)
        requires
            self.wf(),
            self.results@.len() < self.frame_count,
        ensures
            f == self.order@[self.results@.len() as int],
            f < self.frame_count,
    {
        self.order[self.results.len()]
    }

    /// Records the winning choice for the frame under visitation: the record
    /// list grows by exactly that choice tagged with the current frame index,
    /// and the accepted-point count by its number of lit slots.
    pub fn record_choice(&mut self, choice: ChoiceSummary)
        requires
            old(self).wf(),
            old(self).results@.len() < old(self).frame_count,
            choice.wf(old(self).panel_size),
        ensures
            final(self).wf(),
            final(self).panel_size == old(self).panel_size,
            final(self).frame_count == old(self).frame_count,
            final(self).order@ == old(self).order@,
            final(self).results@ == old(self).results@.push(
                FrameRecord { frame: old(self).order@[old(self).results@.len() as int], choice },
            ),
            final(self).accepted == old(self).accepted + choice.pattern.spec_lit_count(),
    {
        proof {
            lemma_total_lits_bounds(self.results@, self.panel_size);
        }
        let frame = self.order[self.results.len()];
        let lits = choice.pattern.lit_count();
        self.results.push(FrameRecord { frame, choice });
        self.accepted = self.accepted + lits;
        proof {
            assert(self.results@.drop_last() == old(self).results@);
        }
    }
}

/// The lit-slot total of well-formed records is between one and four per
/// record.
pub proof fn lemma_total_lits_bounds(s: Seq<FrameRecord>, panel_size: usize)
    requires
        forall|i: int| 0 <= i < s.len() ==> (#[trigger] s[i]).choice.wf(panel_size),
    ensures
        s.len() <= total_lits(s) <= 4 * s.len(),
    decreases s.len(),
{
    if s.len() > 0 {
        lemma_total_lits_bounds(s.drop_last(), panel_size);
    }
}

/// True when some record of `s` is tagged with the frame index `f`.
pub open spec fn has_frame(s: Seq<FrameRecord>, f: usize) -> bool {
    exists|i: int| 0 <= i < s.len() && (#[trigger] s[i]).frame == f
}

/// A completed run covers the frames exactly: it holds one record per frame
/// index — every index below `frame_count` appears, no index appears twice —
/// and every recorded pattern is non-empty.
pub proof fn lemma_complete_run_covers_frames(o: Optimizer)
    requires
        o.wf(),
        o.results@.len() == o.frame_count,
    ensures
        forall|f: usize| f < o.frame_count ==> has_frame(o.results@, f),
        forall|i: int, j: int|
            0 <= i < o.results@.len() && 0 <= j < o.results@.len() && i != j ==> o.results@[i].frame
                != o.results@[j].frame,
        forall|i: int| 0 <= i < o.results@.len() ==> (#[trigger] o.results@[i]).choice.pattern.is_nonempty(),
{
    assert forall|f: usize| f < o.frame_count implies has_frame(o.results@, f) by {
        assert(o.order@.contains(f));
        let j = choose|j: int| 0 <= j < o.order@.len() && o.order@[j] == f;
        assert(0 <= j < o.results@.len());
        assert(o.results@[j].frame == f);
    }
}

/// However the per-frame searches decide, a run never accepts more than four
/// points per visited frame, nor fewer than one.
pub proof fn lemma_accepted_bounded(o: Optimizer)
    requires
        o.wf(),
    ensures
        o.results@.len() <= o.accepted <= 4 * o.results@.len(),
{
    lemma_total_lits_bounds(o.results@, o.panel_size);
}

/// Determinism of the schedule: two runs seeded alike visit the frames in the
/// same order, and if their searches return the same choices they produce the
/// same records.
pub proof fn lemma_run_deterministic(a: Optimizer, b: Optimizer)
    requires
        a.wf(),
        b.wf(),
        a.order@ == b.order@,
        a.results@.len() == b.results@.len(),
        forall|i: int|
            0 <= i < a.results@.len() ==> (#[trigger] a.results@[i]).choice
                == b.results@[i].choice,
    ensures
        a.results@ == b.results@,
        a.accepted == b.accepted,
{
    assert forall|i: int| 0 <= i < a.results@.len() implies a.results@[i] == b.results@[i] by {
        assert(a.results@[i].frame == a.order@[i]);
        assert(b.results@[i].frame == b.order@[i]);
    }
    assert(a.results@ =~= b.results@);
}

} // verus!
