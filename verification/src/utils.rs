//! Small helpers on vectors.

use vstd::prelude::*;

verus! {

/// `s` followed by `v`: the items of `s` are cloned, those of `v` are moved.
pub fn prepend<T>(v: Vec<T>, s: &[T]) -> (r: Vec<T>) where T: Clone
    ensures
        r@.len() == s@.len() + v@.len(),
        forall|i: int| 0 <= i < s@.len() ==> cloned::<T>(s@[i], #[trigger] r@[i]),
        forall|i: int| 0 <= i < v@.len() ==> r@[s@.len() + i] == v@[i],
{
    let mut v = v;
    let mut tmp: Vec<T> = Vec::new();
    tmp.extend_from_slice(s);
    tmp.append(&mut v);
    tmp
}

} // verus!
