//! The position of an enumeration: an index tuple that can be moved to its
//! successor in place and projected onto a pool.

use vstd::prelude::*;
use crate::views::targets;
use crate::tuples::first_tuple;
use crate::tuples::is_index_tuple;
use crate::tuples::is_pivot;
use crate::tuples::lex_less;
use crate::tuples::step_at;
use crate::tuples::successor;
use crate::tuples::project;
use crate::tuples::lemma_pivot_unique;
use crate::tuples::lemma_slot_bounds;
use crate::tuples::lemma_arity_within_pool;
use crate::tuples::lemma_step_is_later_tuple;

verus! {

/// An index tuple held as machine integers.
#[derive(Debug)]
pub struct IndexState {
    slots: Vec<usize>,
}

impl View for IndexState {
    type V = Seq<int>;

    closed spec fn view(&self) -> Seq<int> {
        Seq::new(self.slots@.len(), |i: int| self.slots@[i] as int)
    }
}

impl IndexState {
    /// The first tuple of arity `r` over a pool of `n` elements, `0, 1, ..., r - 1`;
    /// there is none where `r` exceeds `n`.
    pub fn initial(n: usize, r: usize) -> (out: Option<IndexState>)
        ensures
            r <= n ==> out is Some && out.unwrap()@ == first_tuple(r as nat) && is_index_tuple(
                out.unwrap()@,
                n as int,
            ),
            r > n ==> out is None,
    {
        if r > n {
            return None;
        }
        let mut slots: Vec<usize> = Vec::new();
        let mut i: usize = 0;
        while i < r
            invariant
                i <= r,
                slots@.len() == i,
                forall|j: int| 0 <= j < i ==> slots@[j] == j,
            decreases r - i,
        {
            slots.push(i);
            i += 1;
        }
        let state = IndexState { slots };
        assert(state@ =~= first_tuple(r as nat));
        Some(state)
    }

    /// The number of slots.
    pub fn arity(&self) -> (r: usize)
        ensures
            r == self@.len(),
    {
        self.slots.len()
    }

    /// The position held in slot `i`.
    pub fn slot(&self, i: usize) -> (x: usize)
        requires
            i < self@.len(),
        ensures
            x == self@[i as int],
    {
        self.slots[i]
    }

    /// Moves the tuple to its lexicographic successor among the tuples over `n`
    /// positions. Returns `false`, and leaves the tuple as it is, where it is
    /// the last one.
    pub fn advance(&mut self, n: usize) -> (moved: bool)
        requires
            is_index_tuple(old(self)@, n as int),
        ensures
            is_index_tuple(final(self)@, n as int),
            final(self)@.len() == old(self)@.len(),
            moved ==> successor(old(self)@, n as int) == Some(final(self)@) && lex_less(
                old(self)@,
                final(self)@,
            ),
            !moved ==> successor(old(self)@, n as int) == None::<Seq<int>> && final(self)@ == old(
                self,
            )@,
    {
        let ghost before = self@;
        let r = self.slots.len();
        proof {
            lemma_arity_within_pool(before, n as int);
        }
        let room = n - r;
        let mut i = r;
        while i > 0 && self.slots[i - 1] == i - 1 + room
            invariant
                i <= r,
                r == self.slots@.len(),
                room == n - r,
                self@ == before,
                forall|j: int| i <= j < r ==> self.slots@[j] == j + room,
            decreases i,
        {
            i -= 1;
        }
        if i == 0 {
            assert forall|q: int| !is_pivot(before, n as int, q) by {
                if 0 <= q < r {
                    assert(before[q] == self.slots@[q]);
                }
            }
            return false;
        }
        let p = i - 1;
        let ghost after = step_at(before, p as int);
        proof {
            assert(is_pivot(before, n as int, p as int)) by {
                assert(before[p as int] == self.slots@[p as int]);
                assert forall|j: int| p < j < before.len() implies #[trigger] before[j] == j + n
                    - before.len() by {
                    assert(before[j] == self.slots@[j]);
                }
            }
            lemma_slot_bounds(before, n as int, p as int);
            lemma_pivot_unique(before, n as int, p as int);
            lemma_step_is_later_tuple(before, n as int, p as int);
        }
        let raised = self.slots[p] + 1;
        self.slots.set(p, raised);
        let mut j = p + 1;
        while j < r
            invariant
                p < j <= r,
                r == self.slots@.len(),
                after.len() == r,
                is_index_tuple(after, n as int),
                after == step_at(before, p as int),
                forall|m: int| 0 <= m < j ==> self.slots@[m] == after[m],
            decreases r - j,
        {
            assert(self.slots@[j - 1] == after[j - 1]);
            assert(after[j as int] == after[j - 1] + 1);
            assert(0 <= after[j as int] < n);
            let next = self.slots[j - 1] + 1;
            self.slots.set(j, next);
            j += 1;
        }
        assert(self@ =~= after);
        true
    }

    /// The elements of `pool` that the tuple selects, in the tuple's order.
    pub fn project<'a, T>(&self, pool: &'a [T]) -> (out: Vec<&'a T>)
        requires
            is_index_tuple(self@, pool@.len() as int),
        ensures
            targets(out@) == project(pool@, self@),
    {
        let r = self.slots.len();
        let mut out: Vec<&'a T> = Vec::new();
        let mut i: usize = 0;
        while i < r
            invariant
                i <= r,
                r == self.slots@.len(),
                is_index_tuple(self@, pool@.len() as int),
                out@.len() == i,
                forall|j: int| 0 <= j < i ==> *out@[j] == pool@[self@[j]],
            decreases r - i,
        {
            assert(self@[i as int] == self.slots@[i as int]);
            out.push(&pool[self.slots[i]]);
            i += 1;
        }
        assert(targets(out@) =~= project(pool@, self@));
        out
    }
}

} // verus!
