//! Small helpers on vectors.
use vstd::prelude::*;

verus! {

/// The elements of `v` in reverse order, moved.
pub fn reversed<T>(v: Vec<T>) -> (r: Vec<T>)
    ensures
        r@.len() == v@.len(),
        forall|j: int| 0 <= j < r@.len() ==> #[trigger] r@[j] == v@[v@.len() - 1 - j],
{
    let mut src = v;
    let ghost orig = src@;
    let mut out: Vec<T> = Vec::new();
    while src.len() > 0
        invariant
            src@ == orig.take(src@.len() as int),
            out@.len() + src@.len() == orig.len(),
            forall|j: int| 0 <= j < out@.len() ==> #[trigger] out@[j] == orig[orig.len() - 1 - j],
        decreases src@.len(),
    {
        let x = src.pop().unwrap();
        proof {
            assert(x == orig[src@.len() as int]);
            assert(src@ == orig.take(src@.len() as int));
        }
        out.push(x);
    }
    out
}

} // verus!
