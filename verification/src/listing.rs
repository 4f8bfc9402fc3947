//! What holds of the lexicographic listing of index tuples: how long it is,
//! what it contains, where it starts and ends, that it ascends, and that the
//! successor of each of its tuples is the tuple that follows it.

use vstd::prelude::*;
use crate::binomial::binomial;
use crate::tuples::ascending_within;
use crate::tuples::differ_first_at;
use crate::tuples::lex_less;
use crate::tuples::run_from;
use crate::tuples::last_tuple;
use crate::tuples::tuples_from;
use crate::tuples::is_pivot;
use crate::tuples::pivot;
use crate::tuples::has_pivot;
use crate::tuples::step_at;
use crate::tuples::successor;
use crate::tuples::lemma_pivot_unique;

verus! {

/// The listing from `lo` has as many tuples as there are ways to choose `r`
/// of the `n - lo` positions.
pub proof fn lemma_tuples_from_len(lo: int, n: int, r: nat)
    requires
        lo <= n,
    ensures
        tuples_from(lo, n, r).len() == binomial((n - lo) as nat, r),
    decreases n - lo,
{
    if r != 0 && lo < n {
        lemma_tuples_from_len(lo + 1, n, (r - 1) as nat);
        lemma_tuples_from_len(lo + 1, n, r);
    }
}

/// The listing is empty exactly when more slots are asked for than positions are left.
pub proof fn lemma_tuples_from_empty(lo: int, n: int, r: nat)
    requires
        lo <= n,
    ensures
        tuples_from(lo, n, r).len() == 0 <==> r > n - lo,
    decreases n - lo,
{
    if r != 0 && lo < n {
        lemma_tuples_from_empty(lo + 1, n, (r - 1) as nat);
        lemma_tuples_from_empty(lo + 1, n, r);
    }
}

/// Every tuple of the listing has arity `r`, ascends, and stays within `lo..n`.
pub proof fn lemma_tuples_from_valid(lo: int, n: int, r: nat, k: int)
    requires
        0 <= k < tuples_from(lo, n, r).len(),
    ensures
        tuples_from(lo, n, r)[k].len() == r,
        ascending_within(tuples_from(lo, n, r)[k], lo, n),
    decreases n - lo,
{
    if r != 0 && lo < n {
        let heads = tuples_from(lo + 1, n, (r - 1) as nat);
        let rest = tuples_from(lo + 1, n, r);
        if k < heads.len() {
            lemma_tuples_from_valid(lo + 1, n, (r - 1) as nat, k);
            let t = seq![lo] + heads[k];
            assert(tuples_from(lo, n, r)[k] == t);
            assert forall|i: int, j: int| 0 <= i < j < t.len() implies t[i] < t[j] by {
                assert(t[j] == heads[k][j - 1]);
                if i > 0 {
                    assert(t[i] == heads[k][i - 1]);
                }
            }
            assert forall|i: int| 0 <= i < t.len() implies lo <= #[trigger] t[i] < n by {
                if i > 0 {
                    assert(t[i] == heads[k][i - 1]);
                }
            }
        } else {
            lemma_tuples_from_valid(lo + 1, n, r, k - heads.len());
            assert(tuples_from(lo, n, r)[k] == rest[k - heads.len()]);
        }
    }
}

/// Where `r` positions are left, the listing starts with the run from `lo`
/// and ends with the last tuple.
pub proof fn lemma_tuples_from_ends(lo: int, n: int, r: nat)
    requires
        lo <= n,
        r <= n - lo,
    ensures
        tuples_from(lo, n, r).len() > 0,
        tuples_from(lo, n, r)[0] == run_from(lo, r),
        tuples_from(lo, n, r).last() == last_tuple(n, r),
    decreases n - lo,
{
    let all = tuples_from(lo, n, r);
    if r == 0 {
        assert(all[0] =~= run_from(lo, 0));
        assert(all.last() =~= last_tuple(n, 0));
    } else {
        let heads = tuples_from(lo + 1, n, (r - 1) as nat);
        let rest = tuples_from(lo + 1, n, r);
        lemma_tuples_from_ends(lo + 1, n, (r - 1) as nat);
        lemma_tuples_from_empty(lo + 1, n, r);
        assert(all[0] == seq![lo] + heads[0]);
        assert(seq![lo] + run_from(lo + 1, (r - 1) as nat) =~= run_from(lo, r));
        if r <= n - lo - 1 {
            lemma_tuples_from_ends(lo + 1, n, r);
            assert(all.last() == rest.last());
        } else {
            assert(rest.len() == 0);
            assert(all.last() == seq![lo] + heads.last());
            assert(seq![lo] + last_tuple(n, (r - 1) as nat) =~= last_tuple(n, r));
        }
    }
}

/// The listing ascends strictly: an earlier tuple comes before a later one in
/// lexicographic order.
pub proof fn lemma_tuples_from_ascending(lo: int, n: int, r: nat, i: int, j: int)
    requires
        0 <= i < j < tuples_from(lo, n, r).len(),
    ensures
        lex_less(tuples_from(lo, n, r)[i], tuples_from(lo, n, r)[j]),
    decreases n - lo,
{
    let all = tuples_from(lo, n, r);
    if r != 0 && lo < n {
        let heads = tuples_from(lo + 1, n, (r - 1) as nat);
        let rest = tuples_from(lo + 1, n, r);
        let h = heads.len() as int;
        if j < h {
            lemma_tuples_from_ascending(lo + 1, n, (r - 1) as nat, i, j);
            let k = choose|k: int| differ_first_at(heads[i], heads[j], k);
            let a = seq![lo] + heads[i];
            let b = seq![lo] + heads[j];
            assert(all[i] == a && all[j] == b);
            assert forall|m: int| 0 <= m < k + 1 implies a[m] == b[m] by {
                if m > 0 {
                    assert(a[m] == heads[i][m - 1]);
                    assert(b[m] == heads[j][m - 1]);
                }
            }
            assert(a[k + 1] == heads[i][k]);
            assert(b[k + 1] == heads[j][k]);
            assert(differ_first_at(a, b, k + 1));
        } else if i >= h {
            lemma_tuples_from_ascending(lo + 1, n, r, i - h, j - h);
            assert(all[i] == rest[i - h] && all[j] == rest[j - h]);
        } else {
            lemma_tuples_from_valid(lo + 1, n, r, j - h);
            let a = seq![lo] + heads[i];
            assert(all[i] == a && all[j] == rest[j - h]);
            assert(a[0] == lo);
            assert(lo + 1 <= rest[j - h][0]);
            assert(differ_first_at(a, rest[j - h], 0));
        }
    }
}

/// The listing misses nothing: every ascending tuple of arity `r` within
/// `lo..n` stands in it, at the position returned.
pub proof fn lemma_tuples_from_complete(lo: int, n: int, r: nat, s: Seq<int>) -> (k: int)
    requires
        s.len() == r,
        ascending_within(s, lo, n),
    ensures
        0 <= k < tuples_from(lo, n, r).len(),
        tuples_from(lo, n, r)[k] == s,
    decreases n - lo,
{
    let all = tuples_from(lo, n, r);
    if r == 0 {
        assert(all[0] =~= s);
        0
    } else {
        assert(lo <= s[0] < n);
        let heads = tuples_from(lo + 1, n, (r - 1) as nat);
        let rest = tuples_from(lo + 1, n, r);
        if s[0] == lo {
            let tail = s.subrange(1, r as int);
            assert forall|i: int| 0 <= i < tail.len() implies lo + 1 <= #[trigger] tail[i]
                < n by {
                assert(tail[i] == s[i + 1]);
                assert(s[0] < s[i + 1]);
            }
            assert forall|i: int, j: int| 0 <= i < j < tail.len() implies tail[i] < tail[j] by {
                assert(s[i + 1] < s[j + 1]);
            }
            let k = lemma_tuples_from_complete(lo + 1, n, (r - 1) as nat, tail);
            assert(all[k] == seq![lo] + heads[k]);
            assert(seq![lo] + tail =~= s);
            k
        } else {
            assert forall|i: int| 0 <= i < s.len() implies lo + 1 <= #[trigger] s[i] < n by {
                if i > 0 {
                    assert(s[0] < s[i]);
                }
            }
            let k = lemma_tuples_from_complete(lo + 1, n, r, s);
            assert(all[heads.len() + k] == rest[k]);
            heads.len() + k
        }
    }
}

/// In the listing, the successor of each tuple is the tuple that follows it,
/// and the last tuple has none.
pub proof fn lemma_tuples_from_successor(lo: int, n: int, r: nat, k: int)
    requires
        lo <= n,
        0 <= k < tuples_from(lo, n, r).len(),
    ensures
        k + 1 < tuples_from(lo, n, r).len() ==> successor(tuples_from(lo, n, r)[k], n) == Some(
            tuples_from(lo, n, r)[k + 1],
        ),
        k + 1 == tuples_from(lo, n, r).len() ==> successor(tuples_from(lo, n, r)[k], n)
            == None::<Seq<int>>,
    decreases n - lo,
{
    let all = tuples_from(lo, n, r);
    if r == 0 {
        assert(!has_pivot(all[0], n));
    } else {
        let heads = tuples_from(lo + 1, n, (r - 1) as nat);
        let rest = tuples_from(lo + 1, n, r);
        let h = heads.len() as int;
        if k >= h {
            lemma_tuples_from_successor(lo + 1, n, r, k - h);
            assert(all[k] == rest[k - h]);
            if k + 1 < all.len() {
                assert(all[k + 1] == rest[k + 1 - h]);
            }
        } else {
            let a = heads[k];
            let s = seq![lo] + a;
            assert(all[k] == s);
            lemma_tuples_from_valid(lo + 1, n, (r - 1) as nat, k);
            lemma_tuples_from_successor(lo + 1, n, (r - 1) as nat, k);
            if k + 1 < h {
                let p = pivot(a, n);
                assert(is_pivot(a, n, p));
                assert(is_pivot(s, n, p + 1)) by {
                    assert(s[p + 1] == a[p]);
                    assert forall|j: int| p + 1 < j < s.len() implies #[trigger] s[j] == j + n
                        - s.len() by {
                        assert(s[j] == a[j - 1]);
                    }
                }
                lemma_pivot_unique(s, n, p + 1);
                assert(all[k + 1] == seq![lo] + heads[k + 1]);
                assert(step_at(s, p + 1) =~= seq![lo] + step_at(a, p));
            } else {
                lemma_tuples_from_empty(lo + 1, n, (r - 1) as nat);
                lemma_tuples_from_ends(lo + 1, n, (r - 1) as nat);
                lemma_tuples_from_empty(lo + 1, n, r);
                assert(a == last_tuple(n, (r - 1) as nat));
                if rest.len() > 0 {
                    lemma_tuples_from_ends(lo + 1, n, r);
                    assert(is_pivot(s, n, 0)) by {
                        assert forall|j: int| 0 < j < s.len() implies #[trigger] s[j] == j + n
                            - s.len() by {
                            assert(s[j] == a[j - 1]);
                        }
                    }
                    lemma_pivot_unique(s, n, 0);
                    assert(all[k + 1] == rest[0]);
                    assert(step_at(s, 0) =~= run_from(lo + 1, r));
                } else {
                    assert(lo == n - r);
                    assert forall|i: int| !is_pivot(s, n, i) by {
                        if 0 < i < s.len() {
                            assert(s[i] == a[i - 1]);
                        }
                    }
                }
            }
        }
    }
}

} // verus!
