//! Void-and-cluster rank bookkeeping.
//!
//! The blue-noise ranker walks four strictly sequential phases over the
//! depth-expanded point indices: seed a random sample into "selected", swap
//! the most clustered selected point against the most isolated unused point
//! until a fixed point, then rank the selected sample from densest out, and
//! finally rank the remaining points from voidiest in.  Which point is
//! "clusteriest" or "voidiest" is decided by the (unverified) floating-point
//! energy maps; this module holds the partition and rank state and guarantees,
//! whatever those decisions are, that the partitions stay a disjoint cover of
//! all indices and that the finished run assigns every index exactly one rank
//! numerator, hitting each value in `[0, total)` exactly once.
//!
//! A rank numerator `n` stands for the dither rank `n / total`, a value in
//! `[0, 1)`.

use crate::seqs::lemma_removed_at;
use crate::seqs::remove_value_once;
use crate::shuffle::shuffled_of;
use crate::shuffle::shuffled_range;
use vstd::prelude::*;

verus! {

/// No index is ranked.
pub open spec fn none_ranked_in(ranks: Seq<Option<usize>>) -> bool {
    forall|i: int| 0 <= i < ranks.len() ==> !((#[trigger] ranks[i]) is Some)
}

/// Every index is ranked.
pub open spec fn all_ranked_in(ranks: Seq<Option<usize>>) -> bool {
    forall|i: int| 0 <= i < ranks.len() ==> (#[trigger] ranks[i]) is Some
}

/// No two ranked indices share a numerator.
pub open spec fn injective_in(ranks: Seq<Option<usize>>) -> bool {
    forall|i: int, k: int|
        0 <= i < ranks.len() && 0 <= k < ranks.len() && i != k && (#[trigger] ranks[i]) is Some
            && (#[trigger] ranks[k]) is Some ==> ranks[i]->0 != ranks[k]->0
}

/// Every assigned numerator lies in `[lo, hi)`.
pub open spec fn nums_in_range(ranks: Seq<Option<usize>>, lo: int, hi: int) -> bool {
    forall|i: int|
        0 <= i < ranks.len() && (#[trigger] ranks[i]) is Some ==> lo <= ranks[i]->0 < hi
}

/// Some index carries the numerator `n`.
pub open spec fn has_num_in(ranks: Seq<Option<usize>>, n: int) -> bool {
    exists|i: int| 0 <= i < ranks.len() && (#[trigger] ranks[i]) is Some && ranks[i]->0 == n
}

/// Every numerator in `[lo, hi)` is assigned to some index.
pub open spec fn covers_in(ranks: Seq<Option<usize>>, lo: int, hi: int) -> bool {
    forall|n: int| lo <= n < hi ==> #[trigger] has_num_in(ranks, n)
}

/// An index is ranked exactly when it sits in `sel` but not in `work`.
pub open spec fn ranked_iff_member(
    ranks: Seq<Option<usize>>,
    sel: Seq<usize>,
    work: Seq<usize>,
) -> bool {
    forall|i: int|
        0 <= i < ranks.len() ==> ((#[trigger] ranks[i]) is Some <==> (sel.contains(i as usize)
            && !work.contains(i as usize)))
}

/// The indices ranked below `sample` are exactly the members of `pat`.
pub open spec fn low_ranks_match(ranks: Seq<Option<usize>>, sample: int, pat: Set<usize>) -> bool {
    forall|i: int|
        0 <= i < ranks.len() ==> (((#[trigger] ranks[i]) is Some && ranks[i]->0 < sample)
            <==> pat.contains(i as usize))
}

/// Every element of `a` is an element of `b`.
pub open spec fn members_of(a: Seq<usize>, b: Seq<usize>) -> bool {
    forall|x: usize| #[trigger] a.contains(x) ==> b.contains(x)
}

/// Where a run stands: balancing swaps (with a half-done swap carrying the
/// extracted clusteriest point), ranking the selected sample, filling in the
/// rest, or done.
#[derive(Clone, Copy, Debug, PartialEq, Eq, Structural)]
pub enum RankerPhase {
    Balance,
    BalanceSwap { clusteriest: usize },
    RankSelected,
    Fill,
    Done,
}

/// Partition and rank state of one void-and-cluster run over `total`
/// depth-expanded point indices.
pub struct Ranker {
    /// How many point indices there are; ranks are numerators over this.
    pub total: usize,
    /// Size of the seeded initial sample.
    pub sample: usize,
    /// The "selected" partition, in insertion order.
    pub selected: Vec<usize>,
    /// The "unused" partition, in insertion order.
    pub unused: Vec<usize>,
    /// During rank-selected, the private working copy of the selected sample.
    pub work: Vec<usize>,
    /// The rank numerator assigned to each index, once it has one.
    pub ranks: Vec<Option<usize>>,
    /// The point most recently swapped in by a balance round.
    pub last_voidiest: Option<usize>,
    /// The current phase.
    pub phase: RankerPhase,
    /// The selected set as it stood when balancing finished: the initial
    /// binary pattern, whose members get the ranks below `sample / total`.
    pub initial_pattern: Ghost<Set<usize>>,
}

impl Ranker {
    /// The partitions: duplicate-free index lists below `total` that together
    /// cover every index exactly once.
    pub open spec fn inv_partition(self) -> bool {
        &&& self.ranks@.len() == self.total
        &&& self.sample <= self.total
        &&& self.selected@.no_duplicates()
        &&& self.unused@.no_duplicates()
        &&& forall|i: int| 0 <= i < self.selected@.len() ==> self.selected@[i] < self.total
        &&& forall|i: int| 0 <= i < self.unused@.len() ==> self.unused@[i] < self.total
        &&& forall|x: usize| !(self.selected@.contains(x) && self.unused@.contains(x))
        &&& forall|x: usize|
            x < self.total ==> self.selected@.contains(x) || self.unused@.contains(x)
        &&& self.selected@.len() + self.unused@.len() == self.total
    }

    /// The full invariant, phase by phase.
    pub open spec fn inv(self) -> bool {
        &&& self.inv_partition()
        &&& match self.phase {
            RankerPhase::Balance => {
                &&& self.selected@.len() == self.sample
                &&& none_ranked_in(self.ranks@)
                &&& self.work@.len() == 0
            },
            RankerPhase::BalanceSwap { clusteriest } => {
                &&& self.selected@.len() + 1 == self.sample
                &&& self.unused@.contains(clusteriest)
                &&& none_ranked_in(self.ranks@)
                &&& self.work@.len() == 0
            },
            RankerPhase::RankSelected => {
                &&& self.selected@.len() == self.sample
                &&& self.work@.no_duplicates()
                &&& self.work@.len() <= self.sample
                &&& members_of(self.work@, self.selected@)
                &&& self.initial_pattern@ == self.selected@.to_set()
                &&& ranked_iff_member(self.ranks@, self.selected@, self.work@)
                &&& nums_in_range(self.ranks@, self.work@.len() as int, self.sample as int)
                &&& injective_in(self.ranks@)
                &&& covers_in(self.ranks@, self.work@.len() as int, self.sample as int)
            },
            RankerPhase::Fill => {
                &&& self.sample <= self.selected@.len()
                &&& self.work@.len() == 0
                &&& forall|x: usize|
                    self.initial_pattern@.contains(x) ==> self.selected@.contains(x)
                &&& ranked_iff_member(self.ranks@, self.selected@, self.work@)
                &&& nums_in_range(self.ranks@, 0, self.selected@.len() as int)
                &&& injective_in(self.ranks@)
                &&& covers_in(self.ranks@, 0, self.selected@.len() as int)
                &&& low_ranks_match(self.ranks@, self.sample as int, self.initial_pattern@)
            },
            RankerPhase::Done => {
                &&& all_ranked_in(self.ranks@)
                &&& nums_in_range(self.ranks@, 0, self.total as int)
                &&& injective_in(self.ranks@)
                &&& covers_in(self.ranks@, 0, self.total as int)
                &&& low_ranks_match(self.ranks@, self.sample as int, self.initial_pattern@)
            },
        }
    }

    /// Seeds a run: the indices `0..total` are shuffled by `seed`, the first
    /// `sample` of them form the selected partition and the rest the unused
    /// one, and nothing is ranked.
    pub fn new(total: usize, sample: usize, seed: u64) -> (r: Self)
        requires
            sample <= total,
        ensures
            r.inv(),
            r.phase == RankerPhase::Balance,
            r.total == total,
            r.sample == sample,
            r.last_voidiest is None,
            r.selected@ == shuffled_of(seed, total).take(sample as int),
            r.unused@ == shuffled_of(seed, total).skip(sample as int),
    {
        let order = shuffled_range(total, seed);
        let mut selected: Vec<usize> = Vec::new();
        let mut unused: Vec<usize> = Vec::new();
        let mut i: usize = 0;
        while i < sample
            invariant
                sample <= total,
                order@.len() == total,
                i <= sample,
                selected@ == order@.take(i as int),
            decreases sample - i,
        {
            selected.push(order[i]);
            proof {
                assert(selected@ =~= order@.take(i + 1));
            }
            i += 1;
        }
        let mut k: usize = sample;
        while k < total
            invariant
                sample <= k <= total,
                order@.len() == total,
                unused@ == order@.subrange(sample as int, k as int),
            decreases total - k,
        {
            unused.push(order[k]);
            proof {
                assert(unused@ =~= order@.subrange(sample as int, k + 1));
            }
            k += 1;
        }
        let mut ranks: Vec<Option<usize>> = Vec::new();
        let mut m: usize = 0;
        while m < total
            invariant
                m <= total,
                ranks@.len() == m,
                forall|i: int| 0 <= i < m ==> !((#[trigger] ranks@[i]) is Some),
            decreases total - m,
        {
            ranks.push(None);
            m += 1;
        }
        let r = Ranker {
            total,
            sample,
            selected,
            unused,
            work: Vec::new(),
            ranks,
            last_voidiest: None,
            phase: RankerPhase::Balance,
            initial_pattern: Ghost(Set::empty()),
        };
        proof {
            lemma_split_partition(order@, r.selected@, r.unused@, total, sample);
        }
        r
    }
}

/// What taking the clusteriest point `c` out of "selected" does: `c` moves to
/// the back of "unused", a swap for `c` is pending, and nothing else changes.
pub open spec fn balance_begin_step(pre: Ranker, post: Ranker, c: usize) -> bool {
    &&& post.phase == (RankerPhase::BalanceSwap { clusteriest: c })
    &&& post.selected@ == pre.selected@.remove_value(c)
    &&& post.unused@ == pre.unused@.push(c)
    &&& post.ranks@ == pre.ranks@
    &&& post.work@ == pre.work@
    &&& post.last_voidiest == pre.last_voidiest
    &&& post.total == pre.total
    &&& post.sample == pre.sample
    &&& post.initial_pattern == pre.initial_pattern
}

/// What moving the voidiest point `v` into "selected" does: `v` leaves
/// "unused" for the back of "selected", it is remembered as the last voidiest,
/// the pending swap closes, and nothing else changes.
pub open spec fn balance_complete_step(pre: Ranker, post: Ranker, v: usize) -> bool {
    &&& post.phase == RankerPhase::Balance
    &&& post.unused@ == pre.unused@.remove_value(v)
    &&& post.selected@ == pre.selected@.push(v)
    &&& post.ranks@ == pre.ranks@
    &&& post.work@ == pre.work@
    &&& post.last_voidiest == Some(v)
    &&& post.total == pre.total
    &&& post.sample == pre.sample
    &&& post.initial_pattern == pre.initial_pattern
}

impl Ranker {
    /// Opens one balance round with the clusteriest selected point `c`.  When
    /// `c` is the very point the previous round swapped in, the balancing has
    /// reached its fixed point: the round does not open and `true` comes back.
    /// Otherwise `c` moves from "selected" to "unused" and the round waits for
    /// the voidiest point.
    pub fn balance_begin(&mut self, c: usize) -> (done: bool)
        requires
            old(self).inv(),
            old(self).phase == RankerPhase::Balance,
            old(self).selected@.contains(c),
        ensures
            final(self).inv(),
            done <==> old(self).last_voidiest == Some(c),
            done ==> *final(self) == *old(self),
            !done ==> balance_begin_step(*old(self), *final(self), c),
    {
        match self.last_voidiest {
            Some(v) => {
                if v == c {
                    return true;
                }
            },
            None => {},
        }
        let j = remove_value_once(&mut self.selected, c);
        proof {
            lemma_removed_at(old(self).selected@, self.selected@, j as int, c);
        }
        self.unused.push(c);
        self.phase = RankerPhase::BalanceSwap { clusteriest: c };
        proof {
            lemma_push_partition(old(self).unused@, self.unused@, c, self.total as int);
        }
        false
    }

    /// Closes the pending balance round with the voidiest unused point `v`
    /// (the clusteriest just moved over is itself a candidate): `v` moves from
    /// "unused" to "selected" and is remembered.  When `v` is the point the
    /// round began with, the swap undid itself and the balancing has reached
    /// its fixed point: `true` comes back.
    pub fn balance_complete(&mut self, v: usize) -> (done: bool)
        requires
            old(self).inv(),
            old(self).phase is BalanceSwap,
            old(self).unused@.contains(v),
        ensures
            final(self).inv(),
            done <==> (old(self).phase matches RankerPhase::BalanceSwap { clusteriest } && v
                == clusteriest),
            balance_complete_step(*old(self), *final(self), v),
    {
        let c = match self.phase {
            RankerPhase::BalanceSwap { clusteriest } => clusteriest,
            _ => 0,
        };
        let j = remove_value_once(&mut self.unused, v);
        proof {
            lemma_removed_at(old(self).unused@, self.unused@, j as int, v);
        }
        self.selected.push(v);
        self.last_voidiest = Some(v);
        self.phase = RankerPhase::Balance;
        proof {
            lemma_push_partition(old(self).selected@, self.selected@, v, self.total as int);
        }
        v == c
    }

    /// Ends the balancing and opens the ranking of the selected sample: the
    /// working copy is loaded with the selected points and the selected set is
    /// recorded as the initial binary pattern.
    pub fn start_ranking(&mut self)
        requires
            old(self).inv(),
            old(self).phase == RankerPhase::Balance,
        ensures
            final(self).inv(),
            final(self).phase == RankerPhase::RankSelected,
            final(self).work@ == old(self).selected@,
            final(self).initial_pattern@ == old(self).selected@.to_set(),
            final(self).selected@ == old(self).selected@,
            final(self).unused@ == old(self).unused@,
            final(self).ranks@ == old(self).ranks@,
            final(self).total == old(self).total,
            final(self).sample == old(self).sample,
            final(self).last_voidiest == old(self).last_voidiest,
    {
        let mut work: Vec<usize> = Vec::new();
        let mut i: usize = 0;
        let n = self.selected.len();
        while i < n
            invariant
                n == self.selected@.len(),
                i <= n,
                work@ == self.selected@.take(i as int),
            decreases n - i,
        {
            work.push(self.selected[i]);
            proof {
                assert(work@ =~= self.selected@.take(i + 1));
            }
            i += 1;
        }
        proof {
            assert(work@ =~= self.selected@);
        }
        self.work = work;
        self.initial_pattern = Ghost(self.selected@.to_set());
        self.phase = RankerPhase::RankSelected;
    }

    /// Ranks the clusteriest point `c` of the working copy and takes it out:
    /// `c` gets the numerator one below the copy's size, so the selected
    /// sample is ranked downwards from `(sample - 1) / total` to `0`.
    pub fn rank_selected_step(&mut self, c: usize)
        requires
            old(self).inv(),
            old(self).phase == RankerPhase::RankSelected,
            old(self).work@.contains(c),
        ensures
            final(self).inv(),
            final(self).phase == RankerPhase::RankSelected,
            final(self).ranks@ == old(self).ranks@.update(
                c as int,
                Some((old(self).work@.len() - 1) as usize),
            ),
            final(self).work@ == old(self).work@.remove_value(c),
            final(self).selected@ == old(self).selected@,
            final(self).unused@ == old(self).unused@,
            final(self).total == old(self).total,
            final(self).sample == old(self).sample,
            final(self).last_voidiest == old(self).last_voidiest,
            final(self).initial_pattern == old(self).initial_pattern,
    {
        proof {
            let i0 = choose|i: int| 0 <= i < self.work@.len() && self.work@[i] == c;
            assert(self.work@.len() >= 1);
            assert(self.selected@.contains(c));
            let i1 = choose|i: int| 0 <= i < self.selected@.len() && self.selected@[i] == c;
            assert(self.selected@[i1] == c);
            assert(c < self.total);
        }
        let num = self.work.len() - 1;
        let j = remove_value_once(&mut self.work, c);
        proof {
            lemma_removed_at(old(self).work@, self.work@, j as int, c);
        }
        self.ranks[c] = Some(num);
        proof {
            let pre = *old(self);
            let post = *self;
            let ci = c as int;
            let lw = pre.work@.len() as int;
            assert(post.ranks@ == pre.ranks@.update(ci, Some((lw - 1) as usize)));
            assert forall|i: int|
                0 <= i < post.ranks@.len() implies ((#[trigger] post.ranks@[i]) is Some <==> (
            post.selected@.contains(i as usize) && !post.work@.contains(i as usize))) by {
                if i == ci {
                    assert(post.ranks@[i] is Some);
                    assert(!post.work@.contains(c));
                } else {
                    assert(post.ranks@[i] == pre.ranks@[i]);
                    assert(pre.ranks@[i] is Some <==> (pre.selected@.contains(i as usize)
                        && !pre.work@.contains(i as usize)));
                    assert(i as usize != c);
                    assert(post.work@.contains(i as usize) <==> pre.work@.contains(i as usize));
                }
            }
            assert forall|i: int|
                0 <= i < post.ranks@.len() && (#[trigger] post.ranks@[i]) is Some implies lw - 1
                <= post.ranks@[i]->0 < post.sample by {
                if i != ci {
                    assert(post.ranks@[i] == pre.ranks@[i]);
                }
            }
            assert forall|i: int, k: int|
                0 <= i < post.ranks@.len() && 0 <= k < post.ranks@.len() && i != k && (
            #[trigger] post.ranks@[i]) is Some && (#[trigger] post.ranks@[k]) is Some implies post.ranks@[i]->0
                != post.ranks@[k]->0 by {
                if i != ci {
                    assert(post.ranks@[i] == pre.ranks@[i]);
                }
                if k != ci {
                    assert(post.ranks@[k] == pre.ranks@[k]);
                }
                if i != ci && k != ci {
                    assert(pre.ranks@[i]->0 != pre.ranks@[k]->0);
                } else if i == ci {
                    assert(pre.ranks@[k] is Some ==> lw <= pre.ranks@[k]->0);
                } else {
                    assert(pre.ranks@[i] is Some ==> lw <= pre.ranks@[i]->0);
                }
            }
            assert forall|n: int|
                post.work@.len() <= n < post.sample implies #[trigger] has_num_in(
                post.ranks@,
                n,
            ) by {
                if n == lw - 1 {
                    assert(post.ranks@[ci] is Some && post.ranks@[ci]->0 == n);
                } else {
                    assert(has_num_in(pre.ranks@, n));
                    let i = choose|i: int|
                        0 <= i < pre.ranks@.len() && (#[trigger] pre.ranks@[i]) is Some
                            && pre.ranks@[i]->0 == n;
                    assert(pre.ranks@[ci] is None);
                    assert(i != ci);
                    assert(post.ranks@[i] == pre.ranks@[i]);
                    assert(post.ranks@[i] is Some && post.ranks@[i]->0 == n);
                }
            }
        }
    }

    /// Ends the ranking of the selected sample, whose working copy must be
    /// exhausted, and opens the filling phase.
    pub fn finish_ranking(&mut self)
        requires
            old(self).inv(),
            old(self).phase == RankerPhase::RankSelected,
            old(self).work@.len() == 0,
        ensures
            final(self).inv(),
            final(self).phase == RankerPhase::Fill,
            final(self).selected@ == old(self).selected@,
            final(self).unused@ == old(self).unused@,
            final(self).ranks@ == old(self).ranks@,
            final(self).total == old(self).total,
            final(self).sample == old(self).sample,
            final(self).last_voidiest == old(self).last_voidiest,
            final(self).initial_pattern == old(self).initial_pattern,
    {
        self.phase = RankerPhase::Fill;
        proof {
            let pre = *old(self);
            let post = *self;
            assert forall|x: usize|
                post.initial_pattern@.contains(x) implies post.selected@.contains(x) by {
                assert(pre.selected@.to_set().contains(x));
            }
            assert forall|i: int|
                0 <= i < post.ranks@.len() implies (((#[trigger] post.ranks@[i]) is Some
                && post.ranks@[i]->0 < post.sample) <==> post.initial_pattern@.contains(
                i as usize,
            )) by {
                assert(post.ranks@[i] is Some <==> (post.selected@.contains(i as usize)
                    && !post.work@.contains(i as usize)));
                assert(post.initial_pattern@.contains(i as usize) <==> post.selected@.contains(
                    i as usize,
                ));
            }
        }
    }

    /// Ranks the voidiest unused point `v` and moves it into "selected": `v`
    /// gets the next free numerator, the size of "selected" before the move,
    /// so the remaining points are ranked upwards from `sample / total`.
    pub fn fill_step(&mut self, v: usize)
        requires
            old(self).inv(),
            old(self).phase == RankerPhase::Fill,
            old(self).unused@.contains(v),
        ensures
            final(self).inv(),
            final(self).phase == RankerPhase::Fill,
            final(self).ranks@ == old(self).ranks@.update(
                v as int,
                Some(old(self).selected@.len() as usize),
            ),
            final(self).selected@ == old(self).selected@.push(v),
            final(self).unused@ == old(self).unused@.remove_value(v),
            final(self).total == old(self).total,
            final(self).sample == old(self).sample,
            final(self).last_voidiest == old(self).last_voidiest,
            final(self).initial_pattern == old(self).initial_pattern,
    {
        proof {
            let i0 = choose|i: int| 0 <= i < self.unused@.len() && self.unused@[i] == v;
            assert(self.unused@[i0] == v);
            assert(v < self.total);
        }
        let num = self.selected.len();
        let j = remove_value_once(&mut self.unused, v);
        proof {
            lemma_removed_at(old(self).unused@, self.unused@, j as int, v);
        }
        self.selected.push(v);
        proof {
            lemma_push_partition(old(self).selected@, self.selected@, v, self.total as int);
        }
        self.ranks[v] = Some(num);
        proof {
            let pre = *old(self);
            let post = *self;
            let vi = v as int;
            let lv = pre.selected@.len() as int;
            assert(post.ranks@ == pre.ranks@.update(vi, Some(lv as usize)));
            assert forall|i: int|
                0 <= i < post.ranks@.len() implies ((#[trigger] post.ranks@[i]) is Some <==> (
            post.selected@.contains(i as usize) && !post.work@.contains(i as usize))) by {
                assert(!post.work@.contains(i as usize));
                if i == vi {
                    assert(post.ranks@[i] is Some);
                    assert(post.selected@.contains(v));
                } else {
                    assert(post.ranks@[i] == pre.ranks@[i]);
                    assert(pre.ranks@[i] is Some <==> (pre.selected@.contains(i as usize)
                        && !pre.work@.contains(i as usize)));
                    assert(i as usize != v);
                    assert(post.selected@.contains(i as usize) <==> pre.selected@.contains(
                        i as usize,
                    ));
                }
            }
            assert forall|i: int|
                0 <= i < post.ranks@.len() && (#[trigger] post.ranks@[i]) is Some implies 0
                <= post.ranks@[i]->0 < post.selected@.len() by {
                if i != vi {
                    assert(post.ranks@[i] == pre.ranks@[i]);
                }
            }
            assert forall|i: int, k: int|
                0 <= i < post.ranks@.len() && 0 <= k < post.ranks@.len() && i != k && (
            #[trigger] post.ranks@[i]) is Some && (#[trigger] post.ranks@[k]) is Some implies post.ranks@[i]->0
                != post.ranks@[k]->0 by {
                if i != vi {
                    assert(post.ranks@[i] == pre.ranks@[i]);
                }
                if k != vi {
                    assert(post.ranks@[k] == pre.ranks@[k]);
                }
                if i != vi && k != vi {
                    assert(pre.ranks@[i]->0 != pre.ranks@[k]->0);
                } else if i == vi {
                    assert(pre.ranks@[k] is Some ==> pre.ranks@[k]->0 < lv);
                } else {
                    assert(pre.ranks@[i] is Some ==> pre.ranks@[i]->0 < lv);
                }
            }
            assert forall|n: int|
                0 <= n < post.selected@.len() implies #[trigger] has_num_in(post.ranks@, n) by {
                if n == lv {
                    assert(post.ranks@[vi] is Some && post.ranks@[vi]->0 == n);
                } else {
                    assert(has_num_in(pre.ranks@, n));
                    let i = choose|i: int|
                        0 <= i < pre.ranks@.len() && (#[trigger] pre.ranks@[i]) is Some
                            && pre.ranks@[i]->0 == n;
                    assert(pre.ranks@[vi] is None);
                    assert(i != vi);
                    assert(post.ranks@[i] == pre.ranks@[i]);
                    assert(post.ranks@[i] is Some && post.ranks@[i]->0 == n);
                }
            }
            assert forall|i: int|
                0 <= i < post.ranks@.len() implies (((#[trigger] post.ranks@[i]) is Some
                && post.ranks@[i]->0 < post.sample) <==> post.initial_pattern@.contains(
                i as usize,
            )) by {
                if i == vi {
                    assert(post.ranks@[i]->0 == lv >= post.sample);
                    if post.initial_pattern@.contains(v) {
                        assert(pre.selected@.contains(v));
                    }
                } else {
                    assert(post.ranks@[i] == pre.ranks@[i]);
                    assert((pre.ranks@[i] is Some && pre.ranks@[i]->0 < pre.sample)
                        <==> pre.initial_pattern@.contains(i as usize));
                }
            }
        }
    }

    /// Ends the run once "unused" is empty: every index is ranked, and the
    /// numerators hit each value in `[0, total)` exactly once.
    pub fn finish(&mut self)
        requires
            old(self).inv(),
            old(self).phase == RankerPhase::Fill,
            old(self).unused@.len() == 0,
        ensures
            final(self).inv(),
            final(self).phase == RankerPhase::Done,
            final(self).selected@ == old(self).selected@,
            final(self).unused@ == old(self).unused@,
            final(self).ranks@ == old(self).ranks@,
            final(self).total == old(self).total,
            final(self).sample == old(self).sample,
            final(self).last_voidiest == old(self).last_voidiest,
            final(self).initial_pattern == old(self).initial_pattern,
    {
        self.phase = RankerPhase::Done;
        proof {
            let post = *self;
            assert(post.selected@.len() == post.total);
            assert forall|i: int|
                0 <= i < post.ranks@.len() implies (#[trigger] post.ranks@[i]) is Some by {
                assert(post.selected@.contains(i as usize));
                assert(!post.work@.contains(i as usize));
            }
        }
    }
}

/// At every step of a run the two partitions are a disjoint cover of the
/// point indices: every index below `total` sits in exactly one of "selected"
/// and "unused", and neither list repeats an index.
pub proof fn lemma_partition_disjoint_cover(r: Ranker)
    requires
        r.inv(),
    ensures
        forall|x: usize| !(r.selected@.contains(x) && r.unused@.contains(x)),
        forall|x: usize| x < r.total ==> r.selected@.contains(x) || r.unused@.contains(x),
        r.selected@.no_duplicates(),
        r.unused@.no_duplicates(),
        r.selected@.len() + r.unused@.len() == r.total,
{
}

/// A finished run ranks bijectively: every index is ranked, no two indices
/// share a numerator, every numerator in `[0, total)` is taken, and the
/// numerators below `sample` belong exactly to the members of the initial
/// binary pattern — the phase that ranked the sample and the phase that filled
/// in the rest split the indices without gap or overlap.
pub proof fn lemma_ranks_bijective(r: Ranker)
    requires
        r.inv(),
        r.phase == RankerPhase::Done,
    ensures
        r.ranks@.len() == r.total,
        all_ranked_in(r.ranks@),
        nums_in_range(r.ranks@, 0, r.total as int),
        injective_in(r.ranks@),
        covers_in(r.ranks@, 0, r.total as int),
        low_ranks_match(r.ranks@, r.sample as int, r.initial_pattern@),
{
}

/// With two points and a one-point sample, the balancing reaches its fixed
/// point after at most one swap: either the round closes on the very point it
/// opened with, or the clusteriest point of the next round — any member of the
/// one-point selected partition — is exactly the point the round swapped in,
/// so the next round refuses to open.
pub proof fn lemma_two_point_balance_fixpoint(
    s0: Ranker,
    s1: Ranker,
    s2: Ranker,
    c: usize,
    v: usize,
)
    requires
        s0.inv(),
        s0.phase == RankerPhase::Balance,
        s0.total == 2,
        s0.sample == 1,
        s0.selected@.contains(c),
        balance_begin_step(s0, s1, c),
        balance_complete_step(s1, s2, v),
    ensures
        v == c || (forall|c2: usize| s2.selected@.contains(c2) ==> s2.last_voidiest == Some(c2)),
{
    crate::seqs::lemma_remove_value_facts(s0.selected@, c);
    assert(s1.selected@.len() == 0);
    assert(s2.selected@ == s1.selected@.push(v));
    assert forall|c2: usize| s2.selected@.contains(c2) implies s2.last_voidiest == Some(c2) by {
        let i = choose|i: int| 0 <= i < s2.selected@.len() && s2.selected@[i] == c2;
        assert(s2.selected@[0] == v);
    }
}

/// Two runs agree on everything their future depends on.
pub open spec fn states_agree(a: Ranker, b: Ranker) -> bool {
    &&& a.total == b.total
    &&& a.sample == b.sample
    &&& a.selected@ == b.selected@
    &&& a.unused@ == b.unused@
    &&& a.work@ == b.work@
    &&& a.ranks@ == b.ranks@
    &&& a.last_voidiest == b.last_voidiest
    &&& a.phase == b.phase
}

/// Determinism of the seeding: two runs over the same point count, sample
/// size and seed start from the same partitions, as built by [`Ranker::new`].
pub proof fn lemma_seeding_deterministic(a: Ranker, b: Ranker, seed: u64)
    requires
        a.total == b.total,
        a.sample == b.sample,
        a.selected@ == shuffled_of(seed, a.total).take(a.sample as int),
        a.unused@ == shuffled_of(seed, a.total).skip(a.sample as int),
        b.selected@ == shuffled_of(seed, b.total).take(b.sample as int),
        b.unused@ == shuffled_of(seed, b.total).skip(b.sample as int),
    ensures
        a.selected@ == b.selected@,
        a.unused@ == b.unused@,
{
}

/// Determinism of the balancing: every transition's contract pins the new
/// state as a function of the old state and the chosen point, so two runs
/// that agree and swap the same points agree after a full round.
pub proof fn lemma_balance_round_deterministic(
    a0: Ranker,
    a1: Ranker,
    a2: Ranker,
    b0: Ranker,
    b1: Ranker,
    b2: Ranker,
    c: usize,
    v: usize,
)
    requires
        states_agree(a0, b0),
        balance_begin_step(a0, a1, c),
        balance_begin_step(b0, b1, c),
        balance_complete_step(a1, a2, v),
        balance_complete_step(b1, b2, v),
    ensures
        states_agree(a1, b1),
        states_agree(a2, b2),
{
}

/// Pushing a fresh value below the bound onto a duplicate-free bounded list
/// keeps it duplicate-free and bounded, and adds exactly that value.
proof fn lemma_push_partition(pre: Seq<usize>, post: Seq<usize>, x: usize, total: int)
    requires
        post == pre.push(x),
        pre.no_duplicates(),
        !pre.contains(x),
        x < total,
        forall|i: int| 0 <= i < pre.len() ==> pre[i] < total,
    ensures
        post.no_duplicates(),
        forall|i: int| 0 <= i < post.len() ==> post[i] < total,
        post.contains(x),
        forall|y: usize| post.contains(y) <==> pre.contains(y) || y == x,
        post.len() == pre.len() + 1,
{
    assert(post[post.len() - 1] == x);
    assert forall|y: usize| post.contains(y) implies pre.contains(y) || y == x by {
        let i = choose|i: int| 0 <= i < post.len() && post[i] == y;
        if i < pre.len() {
            assert(pre[i] == y);
        }
    }
    assert forall|y: usize| pre.contains(y) implies post.contains(y) by {
        let i = choose|i: int| 0 <= i < pre.len() && pre[i] == y;
        assert(post[i] == y);
    }
}

/// Splitting a permutation of `0..total` at `sample` yields two duplicate-free
/// lists that partition the indices.
proof fn lemma_split_partition(
    order: Seq<usize>,
    sel: Seq<usize>,
    un: Seq<usize>,
    total: usize,
    sample: usize,
)
    requires
        sample <= total,
        order.len() == total,
        order.no_duplicates(),
        forall|i: int| 0 <= i < order.len() ==> order[i] < total,
        forall|v: usize| v < total ==> order.contains(v),
        sel == order.take(sample as int),
        un == order.skip(sample as int),
    ensures
        sel.no_duplicates(),
        un.no_duplicates(),
        forall|i: int| 0 <= i < sel.len() ==> sel[i] < total,
        forall|i: int| 0 <= i < un.len() ==> un[i] < total,
        forall|x: usize| !(sel.contains(x) && un.contains(x)),
        forall|x: usize| x < total ==> sel.contains(x) || un.contains(x),
        sel.len() == sample,
        un.len() == total - sample,
{
    assert forall|x: usize| !(sel.contains(x) && un.contains(x)) by {
        if sel.contains(x) && un.contains(x) {
            let i = choose|i: int| 0 <= i < sel.len() && sel[i] == x;
            let k = choose|k: int| 0 <= k < un.len() && un[k] == x;
            assert(order[i] == x);
            assert(order[sample + k] == x);
        }
    }
    assert forall|x: usize| x < total implies sel.contains(x) || un.contains(x) by {
        assert(order.contains(x));
        let i = choose|i: int| 0 <= i < order.len() && order[i] == x;
        assert(order[i] == x);
        if i < sample {
            assert(sel[i] == x);
        } else {
            assert(un[i - sample] == x);
        }
    }
}

} // verus!
