//! Ordering predicates over sequences of values: full and partial sortedness,
//! and the prefix/suffix partition that pancake sort maintains.

use vstd::prelude::*;

verus! {

/// The first `n` elements of `s` are in non-decreasing order.
pub open spec fn sorted_prefix(s: Seq<usize>, n: int) -> bool {
    forall|p: int, q: int| 0 <= p <= q < n && q < s.len() ==> s[p] <= s[q]
}

/// The elements of `s` from index `k` on are in non-decreasing order.
pub open spec fn sorted_suffix(s: Seq<usize>, k: int) -> bool {
    forall|p: int, q: int| k <= p <= q < s.len() ==> s[p] <= s[q]
}

/// `s` is sorted in non-decreasing order.
pub open spec fn sorted(s: Seq<usize>) -> bool {
    sorted_prefix(s, s.len() as int)
}

/// Every element before index `k` is at most every element from index `k` on.
pub open spec fn partitioned_at(s: Seq<usize>, k: int) -> bool {
    forall|p: int, q: int| 0 <= p < k <= q < s.len() ==> s[p] <= s[q]
}

/// A sequence whose one-element prefix is below its sorted suffix is sorted.
pub proof fn lemma_sorted_from_partition(s: Seq<usize>)
    requires
        partitioned_at(s, 1),
        sorted_suffix(s, 1),
    ensures
        sorted(s),
{
}

} // verus!
