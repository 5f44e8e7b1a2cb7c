//! The two step strategies: insertion sort and pancake sort, each decomposed
//! so that one call of its step function performs exactly one bounded unit of
//! algorithmic work (one element inserted, or one prefix reduction).

use vstd::prelude::*;

use crate::order::{partitioned_at, sorted, sorted_prefix, sorted_suffix};

verus! {

/// Index of the maximum value among the first `k` elements of `s`, taking the
/// lowest index when the maximum occurs more than once (the scan only moves
/// on a strictly greater value).
pub open spec fn max_index_upto(s: Seq<usize>, k: int) -> int
    recommends
        1 <= k <= s.len(),
    decreases k,
{
    if k <= 1 {
        0
    } else if s[k - 1] > s[max_index_upto(s, k - 1)] {
        k - 1
    } else {
        max_index_upto(s, k - 1)
    }
}

/// The maximum-index scan is deterministic on ties: it yields the first
/// occurrence of the maximum, so every element before the chosen index is
/// strictly below the maximum.
pub proof fn lemma_max_index_upto_first(s: Seq<usize>, k: int)
    requires
        1 <= k <= s.len(),
    ensures
        0 <= max_index_upto(s, k) < k,
        forall|i: int| 0 <= i < k ==> #[trigger] s[i] <= s[max_index_upto(s, k)],
        forall|i: int| 0 <= i < max_index_upto(s, k) ==> #[trigger] s[i] < s[max_index_upto(s, k)],
    decreases k,
{
    if k > 1 {
        lemma_max_index_upto_first(s, k - 1);
    }
}

/// `s` with its prefix up to and including index `u` reversed: a "flip".
pub open spec fn flipped(s: Seq<usize>, u: int) -> Seq<usize>
    recommends
        0 <= u < s.len(),
{
    Seq::new(s.len(), |i: int| if i <= u { s[u - i] } else { s[i] })
}

/// A flip rearranges the prefix in place: the multiset of values is kept.
pub proof fn lemma_flipped_multiset(s: Seq<usize>, u: int)
    requires
        0 <= u < s.len(),
    ensures
        flipped(s, u).to_multiset() == s.to_multiset(),
{
    let len: int = s.len() as int;
    let pre = s.subrange(0, u + 1);
    let suf = s.subrange(u + 1, len);
    assert(flipped(s, u) =~= pre.reverse() + suf);
    assert(s =~= pre + suf);
    pre.lemma_reverse_to_multiset();
    vstd::seq_lib::lemma_multiset_commutative(pre.reverse(), suf);
    vstd::seq_lib::lemma_multiset_commutative(pre, suf);
}

/// Scan the first `k` elements for the maximum, keeping the first occurrence.
pub fn max_index(a: &Vec<usize>, k: usize) -> (m: usize)
    requires
        1 <= k <= a@.len(),
    ensures
        m as int == max_index_upto(a@, k as int),
        m < k,
{
    let mut m: usize = 0;
    let mut i: usize = 1;
    while i < k
        invariant
            1 <= i <= k <= a@.len(),
            m < i,
            m as int == max_index_upto(a@, i as int),
        decreases k - i,
    {
        if a[i] > a[m] {
            m = i;
        }
        i += 1;
    }
    m
}

/// Reverse `a` in place from index 0 up to and including `u`.
pub fn flip_prefix(a: &mut Vec<usize>, u: usize)
    requires
        u < old(a)@.len(),
    ensures
        final(a)@ == flipped(old(a)@, u as int),
        final(a)@.len() == old(a)@.len(),
        final(a)@.to_multiset() == old(a)@.to_multiset(),
{
    let ghost s = a@;
    let mut lo: usize = 0;
    let mut hi: usize = u;
    while lo < hi
        invariant
            lo + hi == u,
            hi <= u < s.len(),
            a@.len() == s.len(),
            forall|p: int| 0 <= p < lo ==> a@[p] == s[u - p],
            forall|p: int| hi < p <= u ==> a@[p] == s[u - p],
            forall|p: int| lo <= p <= hi ==> a@[p] == s[p],
            forall|p: int| u < p < s.len() ==> a@[p] == s[p],
        decreases hi,
    {
        let x: usize = a[lo];
        let y: usize = a[hi];
        a.set(lo, y);
        a.set(hi, x);
        lo += 1;
        hi -= 1;
    }
    proof {
        assert(a@ =~= flipped(s, u as int));
        lemma_flipped_multiset(s, u as int);
    }
}

/// Start an insertion sort: index 0 is trivially sorted, so the cursor begins
/// at the first element that may still be out of place.
pub fn insertion_setup(a: &Vec<usize>) -> (cursor: usize)
    ensures
        cursor == 1,
        cursor as int >= a@.len() ==> sorted(a@),
{
    1
}

/// One step of insertion sort: move the element at the cursor leftward into
/// its place in the sorted prefix, then advance the cursor. One step inserts
/// exactly one new element, however many shifts that takes. Returns the new
/// cursor and whether the sort is complete; once it reports completion the
/// step must not be called again until a new setup.
pub fn insertion_step(a: &mut Vec<usize>, cursor: usize) -> (r: (usize, bool))
    requires
        1 <= cursor < old(a)@.len(),
        sorted_prefix(old(a)@, cursor as int),
    ensures
        r.0 == cursor + 1,
        r.1 == (cursor + 1 == final(a)@.len()),
        final(a)@.len() == old(a)@.len(),
        final(a)@.to_multiset() == old(a)@.to_multiset(),
        sorted_prefix(final(a)@, cursor as int + 1),
        final(a)@.subrange(cursor as int + 1, final(a)@.len() as int) == old(a)@.subrange(
            cursor as int + 1,
            old(a)@.len() as int,
        ),
        r.1 ==> sorted(final(a)@),
{
    let ghost s = a@;
    let ghost ii: int = cursor as int;
    let value: usize = a[cursor];
    let mut j: usize = cursor;
    while j >= 1 && value < a[j - 1]
        invariant
            0 <= j <= cursor < a@.len(),
            a@.len() == s.len(),
            ii == cursor as int,
            value == s[ii],
            sorted_prefix(s, ii),
            forall|p: int| 0 <= p <= j ==> a@[p] == s[p],
            forall|p: int| j < p <= ii ==> a@[p] == s[p - 1],
            forall|p: int| ii < p < s.len() ==> a@[p] == s[p],
            forall|p: int| j <= p < ii ==> s[p] > value,
        decreases j,
    {
        let t: usize = a[j - 1];
        a.set(j, t);
        j -= 1;
    }
    a.set(j, value);
    proof {
        let jj: int = j as int;
        let r = a@;
        assert(jj == 0 || s[jj - 1] <= value);
        assert(forall|p: int| 0 <= p < jj ==> r[p] == s[p]);
        assert(r[jj] == value);
        assert(forall|p: int| jj < p <= ii ==> r[p] == s[p - 1]);
        assert(forall|p: int| ii < p < s.len() ==> r[p] == s[p]);
        // the step removes the element at the cursor and re-inserts it
        assert(r =~= s.remove(ii).insert(jj, value));
        s.to_multiset_ensures();
        vstd::seq_lib::to_multiset_insert(s.remove(ii), jj, value);
        broadcast use vstd::multiset::group_multiset_axioms;
        assert(s.contains(s[ii]));
        assert(s.to_multiset().count(value) >= 1);
        assert(s.to_multiset().remove(value).insert(value) =~= s.to_multiset());
        assert(r.to_multiset() == s.to_multiset());
        assert forall|p: int, q: int| 0 <= p <= q <= ii implies r[p] <= r[q] by {
            if q == jj && p < jj {
                assert(s[p] <= s[jj - 1]);
            }
        }
        assert(r.subrange(ii + 1, r.len() as int) =~= s.subrange(ii + 1, s.len() as int));
    }
    let n: usize = a.len();
    let done: bool = cursor + 1 == n;
    (cursor + 1, done)
}

/// Start a pancake sort: the whole array is the unsorted prefix.
pub fn pancake_setup(a: &Vec<usize>) -> (cursor: usize)
    ensures
        cursor as int == a@.len(),
        cursor <= 1 ==> sorted(a@),
{
    a.len()
}

/// The array after one pancake step on an unsorted prefix of size `k`: if the
/// first occurrence of the prefix maximum is not already last in the prefix,
/// flip it to the front and then flip the whole prefix, moving it to the end.
pub open spec fn pancake_stepped(s: Seq<usize>, k: int) -> Seq<usize>
    recommends
        2 <= k <= s.len(),
{
    let m: int = max_index_upto(s, k);
    if m == k - 1 {
        s
    } else {
        flipped(flipped(s, m), k - 1)
    }
}

/// One pancake step keeps the multiset of values, does not touch the suffix
/// from `k` on, and carries the partition and sorted-suffix invariants one
/// index leftward.
pub proof fn lemma_pancake_stepped(s: Seq<usize>, k: int)
    requires
        2 <= k <= s.len(),
    ensures
        pancake_stepped(s, k).len() == s.len(),
        pancake_stepped(s, k).to_multiset() == s.to_multiset(),
        pancake_stepped(s, k).subrange(k, s.len() as int) == s.subrange(k, s.len() as int),
        partitioned_at(s, k) && sorted_suffix(s, k) ==> partitioned_at(pancake_stepped(s, k), k - 1)
            && sorted_suffix(pancake_stepped(s, k), k - 1),
{
    let len: int = s.len() as int;
    let m: int = max_index_upto(s, k);
    lemma_max_index_upto_first(s, k);
    let r = pancake_stepped(s, k);
    if m != k - 1 {
        let f1 = flipped(s, m);
        lemma_flipped_multiset(s, m);
        lemma_flipped_multiset(f1, k - 1);
    }
    assert(r.len() == len);
    assert(r[k - 1] == s[m]);
    assert(forall|p: int| k - 1 < p < len ==> r[p] == s[p]);
    assert forall|p: int| #![trigger r[p]] 0 <= p < k - 1 implies (exists|t: int|
        0 <= t < k && #[trigger] s[t] == r[p]) by {
        if m == k - 1 {
            assert(r[p] == s[p]);
        } else {
            let q: int = k - 1 - p;
            if q <= m {
                assert(r[p] == s[m - q]);
            } else {
                assert(r[p] == s[q]);
            }
        }
    }
    assert(r.subrange(k, len) =~= s.subrange(k, len));
    if partitioned_at(s, k) && sorted_suffix(s, k) {
        assert forall|p: int, q: int| 0 <= p < k - 1 <= q < len implies r[p] <= r[q] by {
            let t: int = choose|t: int| 0 <= t < k && #[trigger] s[t] == r[p];
            assert(s[t] <= s[m]);
            if q > k - 1 {
                assert(r[q] == s[q]);
                assert(s[t] <= s[q]);
            }
        }
        assert forall|p: int, q: int| k - 1 <= p <= q < len implies r[p] <= r[q] by {
            if p == k - 1 && q > k - 1 {
                assert(r[q] == s[q]);
                assert(s[m] <= s[q]);
            }
        }
    }
}

/// One step of pancake sort: find the first maximum of the unsorted prefix,
/// move it to the end of the prefix with at most two flips, and shrink the
/// prefix by one. Returns the new cursor and whether the sort is complete;
/// once it reports completion the step must not be called again until a new
/// setup.
pub fn pancake_step(a: &mut Vec<usize>, cursor: usize) -> (r: (usize, bool))
    requires
        2 <= cursor <= old(a)@.len(),
    ensures
        r.0 == cursor - 1,
        r.1 == (cursor == 2),
        final(a)@ == pancake_stepped(old(a)@, cursor as int),
        final(a)@.len() == old(a)@.len(),
        final(a)@.to_multiset() == old(a)@.to_multiset(),
        partitioned_at(old(a)@, cursor as int) && sorted_suffix(old(a)@, cursor as int) ==>
            partitioned_at(final(a)@, cursor as int - 1) && sorted_suffix(
                final(a)@,
                cursor as int - 1,
            ),
{
    let ghost s = a@;
    let m: usize = max_index(a, cursor);
    if m != cursor - 1 {
        flip_prefix(a, m);
        flip_prefix(a, cursor - 1);
    }
    proof {
        lemma_pancake_stepped(s, cursor as int);
        assert(a@ == pancake_stepped(s, cursor as int));
    }
    (cursor - 1, cursor == 2)
}

} // verus!
