//! What the enumeration promises, stated over the listing of index tuples and
//! over the combinations of a pool.

use vstd::prelude::*;
use crate::binomial::binomial;
use crate::binomial::lemma_binomial_all;
use crate::listing::lemma_tuples_from_ascending;
use crate::listing::lemma_tuples_from_complete;
use crate::listing::lemma_tuples_from_empty;
use crate::listing::lemma_tuples_from_ends;
use crate::listing::lemma_tuples_from_len;
use crate::listing::lemma_tuples_from_successor;
use crate::listing::lemma_tuples_from_valid;
use crate::tuples::all_combinations;
use crate::tuples::differ_first_at;
use crate::tuples::first_tuple;
use crate::tuples::index_tuples;
use crate::tuples::is_index_tuple;
use crate::tuples::last_tuple;
use crate::tuples::lex_less;
use crate::tuples::project;
use crate::tuples::successor;
use crate::tuples::lemma_arity_within_pool;

verus! {

/// A pool of `n` elements has `C(n, r)` combinations of arity `r`.
pub proof fn lemma_count<T>(pool: Seq<T>, r: nat)
    ensures
        index_tuples(pool.len(), r).len() == binomial(pool.len(), r),
        all_combinations(pool, r).len() == binomial(pool.len(), r),
{
    lemma_tuples_from_len(0, pool.len() as int, r);
}

/// Every entry of the listing is an index tuple of the arity asked for.
pub proof fn lemma_listed_is_tuple(n: nat, r: nat, k: int)
    requires
        0 <= k < index_tuples(n, r).len(),
    ensures
        index_tuples(n, r)[k].len() == r,
        is_index_tuple(index_tuples(n, r)[k], n as int),
{
    lemma_tuples_from_valid(0, n as int, r, k);
}

/// Every index tuple stands in the listing of its arity: nothing is left out.
pub proof fn lemma_tuple_is_listed(n: nat, s: Seq<int>) -> (k: int)
    requires
        is_index_tuple(s, n as int),
    ensures
        0 <= k < index_tuples(n, s.len()).len(),
        index_tuples(n, s.len())[k] == s,
{
    lemma_tuples_from_complete(0, n as int, s.len(), s)
}

/// No tuple comes before itself, and of two tuples at most one comes before
/// the other.
pub proof fn lemma_lex_less_asymmetric(a: Seq<int>, b: Seq<int>)
    requires
        lex_less(a, b),
    ensures
        a != b,
        !lex_less(b, a),
{
    let k = choose|k: int| differ_first_at(a, b, k);
    if lex_less(b, a) {
        let m = choose|m: int| differ_first_at(b, a, m);
        if m < k {
            assert(a[m] == b[m]);
        } else if k < m {
            assert(b[k] == a[k]);
        }
    }
}

/// The listing ascends strictly in lexicographic order, so no tuple occurs in
/// it twice.
pub proof fn lemma_ascending(n: nat, r: nat, i: int, j: int)
    requires
        0 <= i < j < index_tuples(n, r).len(),
    ensures
        lex_less(index_tuples(n, r)[i], index_tuples(n, r)[j]),
        index_tuples(n, r)[i] != index_tuples(n, r)[j],
{
    lemma_tuples_from_ascending(0, n as int, r, i, j);
    lemma_lex_less_asymmetric(index_tuples(n, r)[i], index_tuples(n, r)[j]);
}

/// With arity zero there is exactly one combination, the empty one, whatever
/// the pool.
pub proof fn lemma_arity_zero<T>(pool: Seq<T>)
    ensures
        index_tuples(pool.len(), 0) == seq![Seq::<int>::empty()],
        all_combinations(pool, 0) == seq![Seq::<T>::empty()],
{
    assert(project(pool, Seq::<int>::empty()) =~= Seq::<T>::empty());
    assert(all_combinations(pool, 0) =~= seq![Seq::<T>::empty()]);
}

/// With the arity of the pool's length there is exactly one combination, the
/// pool itself in its own order.
pub proof fn lemma_arity_whole_pool<T>(pool: Seq<T>)
    ensures
        index_tuples(pool.len(), pool.len()) == seq![first_tuple(pool.len())],
        all_combinations(pool, pool.len()) == seq![pool],
{
    let n = pool.len();
    lemma_tuples_from_len(0, n as int, n);
    lemma_binomial_all(n);
    lemma_tuples_from_ends(0, n as int, n);
    assert(index_tuples(n, n) =~= seq![first_tuple(n)]);
    assert(project(pool, first_tuple(n)) =~= pool);
    assert(all_combinations(pool, n) =~= seq![pool]);
}

/// With an arity above the pool's length there is no combination.
pub proof fn lemma_arity_exceeds_pool<T>(pool: Seq<T>, r: nat)
    requires
        r > pool.len(),
    ensures
        index_tuples(pool.len(), r) == Seq::<Seq<int>>::empty(),
        all_combinations(pool, r) == Seq::<Seq<T>>::empty(),
{
    lemma_tuples_from_empty(0, pool.len() as int, r);
    assert(index_tuples(pool.len(), r) =~= Seq::<Seq<int>>::empty());
    assert(all_combinations(pool, r) =~= Seq::<Seq<T>>::empty());
}

/// Only the last tuple has no successor.
pub proof fn lemma_successor_none_iff_last(s: Seq<int>, n: nat)
    requires
        is_index_tuple(s, n as int),
    ensures
        successor(s, n as int) is None <==> s == last_tuple(n as int, s.len()),
{
    let r = s.len();
    let all = index_tuples(n, r);
    let k = lemma_tuple_is_listed(n, s);
    lemma_arity_within_pool(s, n as int);
    lemma_tuples_from_ends(0, n as int, r);
    lemma_tuples_from_successor(0, n as int, r, k);
    if k + 1 < all.len() {
        lemma_ascending(n, r, k, all.len() - 1);
    }
}

/// The successor of a tuple is the least tuple above it: every tuple that
/// comes after `s` is the successor of `s` or comes after that successor.
pub proof fn lemma_successor_is_next(s: Seq<int>, t: Seq<int>, n: nat)
    requires
        is_index_tuple(s, n as int),
        is_index_tuple(t, n as int),
        s.len() == t.len(),
        lex_less(s, t),
    ensures
        successor(s, n as int) is Some,
        is_index_tuple(successor(s, n as int).unwrap(), n as int),
        lex_less(s, successor(s, n as int).unwrap()),
        successor(s, n as int).unwrap() == t || lex_less(successor(s, n as int).unwrap(), t),
{
    let r = s.len();
    let all = index_tuples(n, r);
    let i = lemma_tuple_is_listed(n, s);
    let j = lemma_tuple_is_listed(n, t);
    lemma_lex_less_asymmetric(s, t);
    if j < i {
        lemma_ascending(n, r, j, i);
    }
    assert(i < j);
    lemma_tuples_from_successor(0, n as int, r, i);
    lemma_listed_is_tuple(n, r, i + 1);
    lemma_ascending(n, r, i, i + 1);
    if i + 1 < j {
        lemma_ascending(n, r, i + 1, j);
    }
}

} // verus!
