//! Removing a value from a duplicate-free index list.
//!
//! The optimizer and ranker keep their index partitions as vectors without
//! duplicates and move single indices between them.  This module gives the
//! move its exact specification — the first occurrence is taken out, order is
//! otherwise kept — and the membership facts the callers' invariants need.

use vstd::prelude::*;

verus! {

/// `post` is `pre` with its first occurrence of `x`, sitting at position `j`,
/// removed; the order of the other elements is kept.
pub open spec fn removed_at(pre: Seq<usize>, post: Seq<usize>, j: int, x: usize) -> bool {
    &&& 0 <= j < pre.len()
    &&& pre[j] == x
    &&& forall|k: int| 0 <= k < j ==> pre[k] != x
    &&& post == pre.remove(j)
}

/// Removing one occurrence from a duplicate-free sequence keeps it
/// duplicate-free, drops exactly that value and keeps every other one.
pub proof fn lemma_removed_at(pre: Seq<usize>, post: Seq<usize>, j: int, x: usize)
    requires
        removed_at(pre, post, j, x),
        pre.no_duplicates(),
    ensures
        post.len() == pre.len() - 1,
        post.no_duplicates(),
        !post.contains(x),
        forall|y: usize| y != x ==> (post.contains(y) <==> pre.contains(y)),
        forall|y: usize| post.contains(y) ==> pre.contains(y),
{
    pre.remove_ensures(j);
    assert forall|i: int, k: int|
        0 <= i < post.len() && 0 <= k < post.len() && i != k implies post[i] != post[k] by {
        let pi: int = if i < j { i } else { i + 1 };
        let pk: int = if k < j { k } else { k + 1 };
        assert(post[i] == pre[pi]);
        assert(post[k] == pre[pk]);
    }
    assert forall|i: int| 0 <= i < post.len() implies post[i] != x by {
        let pi: int = if i < j { i } else { i + 1 };
        assert(post[i] == pre[pi]);
        assert(pi != j);
    }
    assert forall|y: usize| y != x && pre.contains(y) implies post.contains(y) by {
        let i = choose|i: int| 0 <= i < pre.len() && pre[i] == y;
        if i < j {
            assert(post[i] == y);
        } else {
            assert(i > j);
            assert(post[i - 1] == y);
        }
    }
    assert forall|y: usize| post.contains(y) implies pre.contains(y) by {
        let i = choose|i: int| 0 <= i < post.len() && post[i] == y;
        let pi: int = if i < j { i } else { i + 1 };
        assert(pre[pi] == y);
    }
}

/// A `removed_at` removal is the removal of the first occurrence, so the
/// outcome is a function of the sequence and the value.
pub proof fn lemma_removed_at_is_remove_value(pre: Seq<usize>, post: Seq<usize>, j: int, x: usize)
    requires
        removed_at(pre, post, j, x),
    ensures
        pre.index_of_first(x) == Some(j),
        post == pre.remove_value(x),
{
    pre.index_of_first_ensures(x);
    assert(pre.contains(x)) by {
        assert(pre[j] == x);
    }
    let i = pre.index_of_first(x)->0;
    assert(pre[i] == x);
    if i < j {
        assert(false);
    }
    if j < i {
        assert(false);
    }
}

/// Removing a present value from a duplicate-free sequence by `remove_value`
/// drops exactly that value and keeps every other one.
pub proof fn lemma_remove_value_facts(pre: Seq<usize>, x: usize)
    requires
        pre.no_duplicates(),
        pre.contains(x),
    ensures
        pre.remove_value(x).len() == pre.len() - 1,
        pre.remove_value(x).no_duplicates(),
        !pre.remove_value(x).contains(x),
        forall|y: usize| y != x ==> (pre.remove_value(x).contains(y) <==> pre.contains(y)),
        forall|y: usize| pre.remove_value(x).contains(y) ==> pre.contains(y),
{
    pre.index_of_first_ensures(x);
    let j = pre.index_of_first(x)->0;
    lemma_removed_at(pre, pre.remove_value(x), j, x);
}

/// Removes the first occurrence of `x` from `v` and returns its position.
pub(crate) fn remove_value_once(v: &mut Vec<usize>, x: usize) -> (j: usize)
    requires
        old(v)@.contains(x),
    ensures
        removed_at(old(v)@, final(v)@, j as int, x),
        final(v)@ == old(v)@.remove_value(x),
{
    let n = v.len();
    let mut j: usize = 0;
    while v[j] != x
        invariant
            v@ == old(v)@,
            v@.len() == n,
            0 <= j < v@.len(),
            forall|k: int| 0 <= k < j ==> v@[k] != x,
            v@.contains(x),
        decreases v@.len() - j,
    {
        proof {
            let w = choose|i: int| 0 <= i < v@.len() && v@[i] == x;
            assert(j < w);
        }
        j += 1;
    }
    v.remove(j);
    proof {
        lemma_removed_at_is_remove_value(old(v)@, v@, j as int, x);
    }
    j
}

} // verus!
