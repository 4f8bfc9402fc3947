//! Eager enumeration: every combination of a pool, materialised at once.

use vstd::prelude::*;
use crate::binomial::binomial;
use crate::index_state::IndexState;
use crate::views::rows;
use crate::views::targets;
use crate::listing::lemma_tuples_from_ascending;
use crate::listing::lemma_tuples_from_empty;
use crate::listing::lemma_tuples_from_ends;
use crate::listing::lemma_tuples_from_len;
use crate::listing::lemma_tuples_from_successor;
use crate::tuples::all_combinations;
use crate::tuples::index_tuples;
use crate::tuples::is_index_tuple;
use crate::tuples::lex_less;
use crate::tuples::project;

verus! {

/// Every combination of `r` elements of `pool`, each in the pool's order, the
/// whole in lexicographic order of the positions chosen. Where `r` exceeds the
/// length of the pool there is none, and the result is empty.
pub fn combinations<'a, T>(pool: &'a [T], r: usize) -> (res: Vec<Vec<&'a T>>)
    ensures
        rows(res@) == all_combinations(pool@, r as nat),
        res@.len() == binomial(pool@.len(), r as nat),
        forall|i: int, j: int|
            0 <= i < j < res@.len() ==> lex_less(
                #[trigger] index_tuples(pool@.len(), r as nat)[i],
                #[trigger] index_tuples(pool@.len(), r as nat)[j],
            ),
{
    let n = pool.len();
    let ghost all = index_tuples(n as nat, r as nat);
    let mut res: Vec<Vec<&'a T>> = Vec::new();
    proof {
        lemma_tuples_from_len(0, n as int, r as nat);
        lemma_tuples_from_empty(0, n as int, r as nat);
    }
    match IndexState::initial(n, r) {
        None => {},
        Some(first) => {
            let mut state = first;
            let mut more = true;
            let ghost mut k: int = 0;
            proof {
                lemma_tuples_from_ends(0, n as int, r as nat);
            }
            while more
                invariant
                    n == pool@.len(),
                    all == index_tuples(n as nat, r as nat),
                    0 <= k <= all.len(),
                    res@.len() == k,
                    forall|i: int|
                        0 <= i < k ==> targets(#[trigger] res@[i]@) == project(pool@, all[i]),
                    more ==> k < all.len() && state@ == all[k],
                    !more ==> k == all.len(),
                    is_index_tuple(state@, n as int),
                decreases all.len() - k,
            {
                let chosen = state.project(pool);
                res.push(chosen);
                proof {
                    lemma_tuples_from_successor(0, n as int, r as nat, k);
                }
                more = state.advance(n);
                proof {
                    k = k + 1;
                }
            }
        },
    }
    proof {
        assert(rows(res@) =~= all_combinations(pool@, r as nat));
        assert forall|i: int, j: int| 0 <= i < j < res@.len() implies lex_less(
            #[trigger] index_tuples(pool@.len(), r as nat)[i],
            #[trigger] index_tuples(pool@.len(), r as nat)[j],
        ) by {
            lemma_tuples_from_ascending(0, n as int, r as nat, i, j);
        }
    }
    res
}

} // verus!
