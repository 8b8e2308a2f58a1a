//! Monocle: every window gets the full work area.
//!
//! The focused window is on top; the others sit underneath at the same place.

use crate::rect::Rect;
use vstd::prelude::*;

verus! {

/// Place every window at `work_area`, with `gap` pixels taken off each side.
/// The caller is responsible for hiding all but one.
pub fn compute<T: Copy>(leaves: &[T], work_area: Rect, gap: i32) -> (r: Vec<(T, Rect)>)
    requires
        work_area.can_inset(gap as int),
    ensures
        r@ == leaves@.map_values(|t: T| (t, work_area.inset_spec(gap as int))),
{
    let tile = work_area.inset(gap);
    let mut out: Vec<(T, Rect)> = Vec::new();
    let mut i: usize = 0;
    while i < leaves.len()
        invariant
            i <= leaves@.len(),
            out@.len() == i,
            forall|j: int| 0 <= j < i ==> #[trigger] out@[j] == (leaves@[j], tile),
        decreases leaves@.len() - i,
    {
        out.push((leaves[i], tile));
        i = i + 1;
    }
    assert(out@ =~= leaves@.map_values(|t: T| (t, work_area.inset_spec(gap as int))));
    out
}

} // verus!
