//! Mapping every value of a half-open range to its step count.

use vstd::prelude::*;

verus! {

use crate::model::valid_count32;
use crate::nonzero::NonZero;

/// The step count of every value of `[start, stop)` in ascending order,
/// each computed by the naive counter.
pub fn alpha(start: NonZero, stop: NonZero) -> (r: Vec<Option<u32>>)
    ensures
        r@.len() == if start@ < stop@ {
            stop@ - start@
        } else {
            0
        },
        forall|idx: int|
            0 <= idx < r@.len() ==> valid_count32((start@ + idx) as nat, #[trigger] r@[idx]),
{
    let s = start.get();
    let e = stop.get();
    let mut v: Vec<Option<u32>> = Vec::new();
    let mut i = s;
    while i < e
        invariant
            s == start@,
            s >= 1,
            s <= i,
            i <= e || i == s,
            v@.len() == i - s,
            forall|idx: int| 0 <= idx < v@.len() ==> valid_count32((s + idx) as nat, #[trigger] v@[idx]),
        decreases e - i,
    {
        let item = crate::steps::alpha(NonZero::new_unchecked(i));
        v.push(item);
        i = i + 1;
    }
    v
}

/// The step count of every value of `[start, stop)` in ascending order,
/// each computed by the batched counter. Element for element this agrees
/// with applying the counter directly: the contract below is the counter's
/// own, once per range element.
pub fn omega(start: NonZero, stop: NonZero) -> (r: Vec<Option<u32>>)
    ensures
        r@.len() == if start@ < stop@ {
            stop@ - start@
        } else {
            0
        },
        forall|idx: int|
            0 <= idx < r@.len() ==> valid_count32((start@ + idx) as nat, #[trigger] r@[idx]),
{
    let s = start.get();
    let e = stop.get();
    let mut v: Vec<Option<u32>> = Vec::new();
    let mut i = s;
    while i < e
        invariant
            s == start@,
            s >= 1,
            s <= i,
            i <= e || i == s,
            v@.len() == i - s,
            forall|idx: int| 0 <= idx < v@.len() ==> valid_count32((s + idx) as nat, #[trigger] v@[idx]),
        decreases e - i,
    {
        let item = crate::steps::omega(NonZero::new_unchecked(i));
        v.push(item);
        i = i + 1;
    }
    v
}

} // verus!
