//! Index tuples and their lexicographic listing.
//!
//! An index tuple of arity `r` over a pool of `n` elements is a strictly
//! increasing sequence of `r` positions in `0..n`. This module says which
//! sequences are index tuples, lists them in lexicographic order, and defines
//! the successor of a tuple in that order.

use vstd::prelude::*;

verus! {

/// `s` is strictly increasing and all its entries lie in `lo..hi`.
pub open spec fn ascending_within(s: Seq<int>, lo: int, hi: int) -> bool {
    &&& forall|i: int| 0 <= i < s.len() ==> lo <= #[trigger] s[i] < hi
    &&& forall|i: int, j: int| #![trigger s[i], s[j]] 0 <= i < j < s.len() ==> s[i] < s[j]
}

/// `s` names distinct positions of a pool of `n` elements, in increasing order.
pub open spec fn is_index_tuple(s: Seq<int>, n: int) -> bool {
    ascending_within(s, 0, n)
}

/// `a` and `b` agree before position `k`, and at `k` the entry of `a` is the smaller.
pub open spec fn differ_first_at(a: Seq<int>, b: Seq<int>, k: int) -> bool {
    &&& 0 <= k < a.len()
    &&& k < b.len()
    &&& forall|j: int| 0 <= j < k ==> a[j] == b[j]
    &&& a[k] < b[k]
}

/// `a` comes strictly before `b` in lexicographic order (for tuples of one arity).
pub open spec fn lex_less(a: Seq<int>, b: Seq<int>) -> bool {
    exists|k: int| differ_first_at(a, b, k)
}

/// The tuple `lo, lo + 1, ..., lo + r - 1`.
pub open spec fn run_from(lo: int, r: nat) -> Seq<int> {
    Seq::new(r, |i: int| lo + i)
}

/// The lexicographically first tuple of arity `r`: `0, 1, ..., r - 1`.
pub open spec fn first_tuple(r: nat) -> Seq<int> {
    run_from(0, r)
}

/// The lexicographically last tuple of arity `r` over `n` positions:
/// `n - r, n - r + 1, ..., n - 1`.
pub open spec fn last_tuple(n: int, r: nat) -> Seq<int> {
    run_from(n - r, r)
}

/// Each tuple of `ts` with `x` put in front.
pub open spec fn with_first(x: int, ts: Seq<Seq<int>>) -> Seq<Seq<int>> {
    Seq::new(ts.len(), |k: int| seq![x] + ts[k])
}

/// Every tuple of arity `r` with entries in `lo..n`, in lexicographic order:
/// first those that begin with `lo`, then those that do not.
pub open spec fn tuples_from(lo: int, n: int, r: nat) -> Seq<Seq<int>>
    decreases n - lo,
{
    if r == 0 {
        seq![Seq::<int>::empty()]
    } else if lo >= n {
        Seq::<Seq<int>>::empty()
    } else {
        with_first(lo, tuples_from(lo + 1, n, (r - 1) as nat)) + tuples_from(lo + 1, n, r)
    }
}

/// Every index tuple of arity `r` over a pool of `n` elements, in lexicographic order.
pub open spec fn index_tuples(n: nat, r: nat) -> Seq<Seq<int>> {
    tuples_from(0, n as int, r)
}

/// Slot `i` of `s` is the rightmost one that has not reached its final value
/// `i + n - r`.
pub open spec fn is_pivot(s: Seq<int>, n: int, i: int) -> bool {
    &&& 0 <= i < s.len()
    &&& s[i] != i + n - s.len()
    &&& forall|j: int| i < j < s.len() ==> #[trigger] s[j] == j + n - s.len()
}

/// Some slot of `s` can still move.
pub open spec fn has_pivot(s: Seq<int>, n: int) -> bool {
    exists|i: int| is_pivot(s, n, i)
}

/// The slot of `s` that moves next.
pub open spec fn pivot(s: Seq<int>, n: int) -> int {
    choose|i: int| is_pivot(s, n, i)
}

/// `s` with slot `i` raised by one and the slots after it set to the values
/// that follow; the slots before `i` stay.
pub open spec fn step_at(s: Seq<int>, i: int) -> Seq<int> {
    Seq::new(s.len(), |j: int| if j < i { s[j] } else { s[i] + 1 + (j - i) })
}

/// The tuple that follows `s` in lexicographic order among the tuples over `n`
/// positions, or `None` where `s` is the last one.
pub open spec fn successor(s: Seq<int>, n: int) -> Option<Seq<int>> {
    if has_pivot(s, n) {
        Some(step_at(s, pivot(s, n)))
    } else {
        None
    }
}

/// The elements of `pool` at the positions that `s` names, in the order of `s`.
pub open spec fn project<T>(pool: Seq<T>, s: Seq<int>) -> Seq<T> {
    Seq::new(s.len(), |i: int| pool[s[i]])
}

/// Every combination of `r` elements of `pool`, in lexicographic order of the
/// positions chosen.
pub open spec fn all_combinations<T>(pool: Seq<T>, r: nat) -> Seq<Seq<T>> {
    Seq::new(index_tuples(pool.len(), r).len(), |k: int| project(pool, index_tuples(pool.len(), r)[k]))
}

/// A tuple has at most one pivot, so a pivot in hand fixes the successor.
pub proof fn lemma_pivot_unique(s: Seq<int>, n: int, p: int)
    requires
        is_pivot(s, n, p),
    ensures
        has_pivot(s, n),
        pivot(s, n) == p,
        successor(s, n) == Some(step_at(s, p)),
{
    let q = pivot(s, n);
    assert(is_pivot(s, n, q));
    if q < p {
        assert(s[p] == p + n - s.len());
    } else if p < q {
        assert(s[q] == q + n - s.len());
    }
}

/// Slot `i` of an index tuple holds at least `i` and at most its final value.
pub proof fn lemma_slot_bounds(s: Seq<int>, n: int, i: int)
    requires
        is_index_tuple(s, n),
        0 <= i < s.len(),
    ensures
        i <= s[i] <= i + n - s.len(),
    decreases s.len(),
{
    let r = s.len() as int;
    if r > 1 {
        if i < r - 1 {
            let front = s.subrange(0, r - 1);
            assert(forall|j: int| 0 <= j < front.len() ==> front[j] == s[j]);
            assert(s[r - 2] < s[r - 1]);
            assert(is_index_tuple(front, n - 1)) by {
                assert forall|j: int| 0 <= j < front.len() implies 0 <= #[trigger] front[j] < n
                    - 1 by {
                    if j < r - 2 {
                        assert(s[j] < s[r - 2]);
                    }
                }
            }
            lemma_slot_bounds(front, n - 1, i);
        } else {
            let back = s.subrange(1, r);
            assert(forall|j: int| 0 <= j < back.len() ==> back[j] == s[j + 1]);
            assert(s[0] < s[1]);
            let shifted = Seq::new(back.len(), |j: int| back[j] - 1);
            assert(is_index_tuple(shifted, n - 1)) by {
                assert forall|j: int| 0 <= j < shifted.len() implies 0 <= #[trigger] shifted[j]
                    < n - 1 by {
                    if j > 0 {
                        assert(s[0] < s[j + 1]);
                    }
                }
                assert forall|a: int, b: int| 0 <= a < b < shifted.len() implies shifted[a]
                    < shifted[b] by {
                    assert(s[a + 1] < s[b + 1]);
                }
            }
            lemma_slot_bounds(shifted, n - 1, i - 1);
        }
    }
}

/// An index tuple has no more slots than the pool has positions.
pub proof fn lemma_arity_within_pool(s: Seq<int>, n: int)
    requires
        is_index_tuple(s, n),
        0 <= n,
    ensures
        s.len() <= n,
{
    if s.len() > 0 {
        lemma_slot_bounds(s, n, 0);
    }
}

/// Moving the pivot of an index tuple gives an index tuple that comes later.
pub proof fn lemma_step_is_later_tuple(s: Seq<int>, n: int, p: int)
    requires
        is_index_tuple(s, n),
        is_pivot(s, n, p),
    ensures
        is_index_tuple(step_at(s, p), n),
        step_at(s, p).len() == s.len(),
        lex_less(s, step_at(s, p)),
{
    let t = step_at(s, p);
    lemma_slot_bounds(s, n, p);
    assert forall|i: int| 0 <= i < t.len() implies 0 <= #[trigger] t[i] < n by {
        if i < p {
            assert(t[i] == s[i]);
        }
    }
    assert forall|i: int, j: int| 0 <= i < j < t.len() implies t[i] < t[j] by {
        if i < p && j >= p {
            assert(s[i] < s[p]);
        } else if j < p {
            assert(s[i] < s[j]);
        }
    }
    assert(differ_first_at(s, t, p));
}

} // verus!
