//! Views of the vectors of references that the enumeration hands out.

use vstd::prelude::*;

verus! {

/// The values that a sequence of references points to.
pub open spec fn targets<T>(refs: Seq<&T>) -> Seq<T> {
    Seq::new(refs.len(), |i: int| *refs[i])
}

/// The values of each combination in a vector of combinations.
pub open spec fn rows<T>(combos: Seq<Vec<&T>>) -> Seq<Seq<T>> {
    Seq::new(combos.len(), |k: int| targets(combos[k]@))
}

} // verus!
