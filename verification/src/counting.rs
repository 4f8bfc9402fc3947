//! The first integers, counted up from zero.

use vstd::prelude::*;

verus! {

/// The integers `0, 1, ..., n - 1`; none where `n` is not positive.
pub open spec fn count_up(n: int) -> Seq<i32> {
    Seq::new(
        if n > 0 {
            n as nat
        } else {
            0
        },
        |i: int| i as i32,
    )
}

/// The integers from zero up to, and without, `n`.
pub fn punctuated(n: i32) -> (out: Vec<i32>)
    ensures
        out@ == count_up(n as int),
{
    let mut out: Vec<i32> = Vec::new();
    let mut i: i32 = 0;
    while i < n
        invariant
            0 <= i,
            i <= n || (n < 0 && i == 0),
            out@.len() == i,
            forall|k: int| 0 <= k < i ==> out@[k] == k,
        decreases n - i,
    {
        out.push(i);
        i += 1;
    }
    assert(out@ =~= count_up(n as int));
    out
}

} // verus!
