//! Lazy enumeration: the combinations of a pool, one at a time.

use vstd::prelude::*;
use crate::index_state::IndexState;
use crate::views::targets;
use crate::views::rows;
use crate::listing::lemma_tuples_from_empty;
use crate::listing::lemma_tuples_from_ends;
use crate::listing::lemma_tuples_from_successor;
use crate::listing::lemma_tuples_from_valid;
use crate::tuples::all_combinations;
use crate::tuples::index_tuples;

verus! {

/// A forward-only producer of the combinations of a pool. It holds one index
/// tuple, never more, and once it has run out it stays so.
pub struct CombIndicesIter<'a, T> {
    pool: &'a [T],
    arity: usize,
    state: Option<IndexState>,
    started: bool,
    produced: Ghost<nat>,
}

impl<'a, T> CombIndicesIter<'a, T> {
    /// The pool that the combinations are taken from.
    pub closed spec fn pool(&self) -> Seq<T> {
        self.pool@
    }

    /// The number of elements in each combination.
    pub closed spec fn arity(&self) -> nat {
        self.arity as nat
    }

    /// How many combinations have been handed out so far.
    pub closed spec fn produced(&self) -> nat {
        self.produced@
    }

    /// The combinations still to come, in the order in which they will come.
    pub open spec fn remaining(&self) -> Seq<Seq<T>> {
        all_combinations(self.pool(), self.arity()).skip(self.produced() as int)
    }

    /// The producer holds the tuple of the combination it handed out last, or
    /// none before the first and after the last.
    pub closed spec fn wf(&self) -> bool {
        let all = index_tuples(self.pool@.len(), self.arity as nat);
        &&& self.produced@ <= all.len()
        &&& !self.started ==> self.produced@ == 0 && self.state is None
        &&& self.started ==> match self.state {
            Some(s) => 1 <= self.produced@ && s@ == all[self.produced@ - 1],
            None => self.produced@ == all.len(),
        }
    }

    /// The next combination, or `None` once all have been handed out; then
    /// every further call returns `None` as well.
    pub fn next(&mut self) -> (out: Option<Vec<&'a T>>)
        requires
            old(self).wf(),
        ensures
            final(self).wf(),
            final(self).pool() == old(self).pool(),
            final(self).arity() == old(self).arity(),
            match out {
                Some(c) => {
                    &&& old(self).remaining().len() > 0
                    &&& targets(c@) == old(self).remaining()[0]
                    &&& final(self).produced() == old(self).produced() + 1
                    &&& final(self).remaining() == old(self).remaining().skip(1)
                },
                None => {
                    &&& old(self).remaining().len() == 0
                    &&& final(self).produced() == old(self).produced()
                    &&& final(self).remaining() == old(self).remaining()
                },
            },
    {
        let n = self.pool.len();
        let r = self.arity;
        let ghost all = index_tuples(n as nat, r as nat);
        let ghost done = self.produced@;
        proof {
            lemma_tuples_from_empty(0, n as int, r as nat);
        }
        if !self.started {
            self.started = true;
            match IndexState::initial(n, r) {
                None => {
                    self.state = None;
                    None
                },
                Some(first) => {
                    proof {
                        lemma_tuples_from_ends(0, n as int, r as nat);
                    }
                    let chosen = first.project(self.pool);
                    self.state = Some(first);
                    self.produced = Ghost(1);
                    assert(self.remaining() =~= old(self).remaining().skip(1));
                    Some(chosen)
                },
            }
        } else {
            match self.state.take() {
                None => None,
                Some(current) => {
                    let mut current = current;
                    proof {
                        lemma_tuples_from_valid(0, n as int, r as nat, done - 1);
                        lemma_tuples_from_successor(0, n as int, r as nat, done - 1);
                    }
                    if current.advance(n) {
                        let chosen = current.project(self.pool);
                        self.state = Some(current);
                        self.produced = Ghost(done + 1);
                        assert(self.remaining() =~= old(self).remaining().skip(1));
                        Some(chosen)
                    } else {
                        None
                    }
                },
            }
        }
    }
}

impl<'a, T> CombIndicesIter<'a, T> {
    /// Every combination still to come, in order; the producer is left
    /// exhausted.
    pub fn collect(&mut self) -> (res: Vec<Vec<&'a T>>)
        requires
            old(self).wf(),
        ensures
            final(self).wf(),
            final(self).pool() == old(self).pool(),
            final(self).arity() == old(self).arity(),
            rows(res@) == old(self).remaining(),
            final(self).produced() == old(self).produced() + old(self).remaining().len(),
            final(self).remaining().len() == 0,
    {
        let mut res: Vec<Vec<&'a T>> = Vec::new();
        let ghost start = self.remaining();
        let mut item = self.next();
        while item.is_some()
            invariant
                self.wf(),
                self.pool() == old(self).pool(),
                self.arity() == old(self).arity(),
                start == old(self).remaining(),
                res@.len() <= start.len(),
                forall|i: int| 0 <= i < res@.len() ==> targets(#[trigger] res@[i]@) == start[i],
                match item {
                    Some(c) => {
                        &&& res@.len() < start.len()
                        &&& targets(c@) == start[res@.len() as int]
                        &&& self.remaining() == start.skip(res@.len() as int + 1)
                        &&& self.produced() == old(self).produced() + res@.len() + 1
                    },
                    None => {
                        &&& res@.len() == start.len()
                        &&& self.remaining().len() == 0
                        &&& self.produced() == old(self).produced() + res@.len()
                    },
                },
            decreases start.len() - res@.len(),
        {
            let chosen = item.unwrap();
            res.push(chosen);
            item = self.next();
            assert(item is Some ==> start.skip(res@.len() as int).skip(1) =~= start.skip(
                res@.len() as int + 1,
            ));
        }
        assert(rows(res@) =~= start);
        res
    }
}

/// The lazy producer follows the eager enumeration entry by entry: a producer
/// that has handed out `k` combinations has entry `k` of the eager result and
/// all after it still to come, in that order, and nothing once `k` has reached
/// the length of the eager result.
pub proof fn lemma_lazy_follows_eager<'a, T>(it: CombIndicesIter<'a, T>, eager: Seq<Vec<&T>>)
    requires
        it.wf(),
        rows(eager) == all_combinations(it.pool(), it.arity()),
    ensures
        it.produced() <= eager.len(),
        it.remaining() == rows(eager).skip(it.produced() as int),
{
}

/// A producer of every combination of `r` elements of `pool`, in the order of
/// [`crate::eager::combinations`].
pub fn iter_combinations<'a, T>(pool: &'a [T], r: usize) -> (it: CombIndicesIter<'a, T>)
    ensures
        it.wf(),
        it.pool() == pool@,
        it.arity() == r,
        it.produced() == 0,
        it.remaining() == all_combinations(pool@, r as nat),
{
    let it = CombIndicesIter { pool, arity: r, state: None, started: false, produced: Ghost(0) };
    assert(it.remaining() =~= all_combinations(pool@, r as nat));
    it
}

} // verus!
