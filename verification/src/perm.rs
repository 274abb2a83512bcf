//! Permutations of gene sequences.
//!
//! Mutation and the annealer's neighbor operator both perturb an encoding
//! by exchanging two gene positions. This module names that relation and
//! proves the fact every engine contract leans on: a swap leaves the
//! multiset of genes unchanged.

use vstd::multiset::Multiset;
use vstd::prelude::*;
use vstd::seq_lib::group_to_multiset_ensures;

verus! {

/// `b` is `a` with the entries at positions `i` and `j` exchanged.
pub open spec fn swapped<T>(a: Seq<T>, b: Seq<T>, i: int, j: int) -> bool {
    &&& 0 <= i < a.len()
    &&& 0 <= j < a.len()
    &&& b == a.update(i, a[j]).update(j, a[i])
}

/// `b` arises from `a` by exchanging two entries (possibly the same one).
pub open spec fn is_swap_of<T>(a: Seq<T>, b: Seq<T>) -> bool {
    exists|i: int, j: int| swapped(a, b, i, j)
}

/// Exchanging two entries of a sequence preserves its length and its
/// multiset of entries.
pub proof fn lemma_swap_preserves_multiset<T>(a: Seq<T>, b: Seq<T>, i: int, j: int)
    requires
        swapped(a, b, i, j),
    ensures
        b.len() == a.len(),
        b.to_multiset() == a.to_multiset(),
{
    broadcast use group_to_multiset_ensures;

    let mid = a.update(i, a[j]);
    assert(mid.to_multiset() == a.to_multiset().insert(a[j]).remove(a[i]));
    assert(mid[j] == a[j]);
    assert(b.to_multiset() == mid.to_multiset().insert(a[i]).remove(a[j]));
    assert(a.contains(a[i]));
    assert(a.contains(a[j]));
    assert(a.to_multiset().count(a[i]) > 0);
    assert(a.to_multiset().count(a[j]) > 0);
    assert(b.to_multiset() =~= a.to_multiset());
}

/// Every entry of a sequence also stands somewhere in any sequence with
/// the same multiset of entries.
pub proof fn lemma_permutation_index<T>(a: Seq<T>, b: Seq<T>, k: int)
    requires
        a.to_multiset() == b.to_multiset(),
        0 <= k < b.len(),
    ensures
        exists|m: int| 0 <= m < a.len() && a[m] == b[k],
{
    broadcast use group_to_multiset_ensures;

    assert(b.contains(b[k]));
    assert(b.to_multiset().count(b[k]) > 0);
    assert(a.contains(b[k]));
}

} // verus!
