//! Half-open intervals of vertical coordinates.

use std::ops::Range;
use vstd::prelude::*;

verus! {

/// A range is usable as a world height when it is not reversed and its
/// length fits the machine's signed size.
pub open spec fn valid_y_range(r: Range<isize>) -> bool {
    r.start <= r.end && r.end - r.start <= isize::MAX
}

/// The number of levels in a range; zero for a reversed one.
pub open spec fn y_len(r: Range<isize>) -> nat {
    if r.start <= r.end {
        (r.end - r.start) as nat
    } else {
        0
    }
}

/// Whether level `y` lies in the range.
pub open spec fn y_within(r: Range<isize>, y: int) -> bool {
    r.start <= y < r.end
}

/// The intersection of two ranges: from the larger start to the smaller end.
/// Where the two do not overlap, it collapses to the empty range at the
/// larger start: it is never reversed.
pub open spec fn intersection(a: Range<isize>, b: Range<isize>) -> Range<isize> {
    let start = if a.start > b.start { a.start } else { b.start };
    let end = if a.end < b.end { a.end } else { b.end };
    Range { start, end: if end < start { start } else { end } }
}

/// The intersection of two ranges. It holds exactly the levels that lie in
/// both.
pub fn range_intersect(r1: &Range<isize>, r2: &Range<isize>) -> (r: Range<isize>)
    ensures
        r == intersection(*r1, *r2),
        r.start <= r.end,
        forall|y: int| y_within(r, y) <==> y_within(*r1, y) && y_within(*r2, y),
{
    let min: isize = if r1.start > r2.start { r1.start } else { r2.start };
    let max: isize = if r1.end < r2.end { r1.end } else { r2.end };
    if max < min {
        min..min
    } else {
        min..max
    }
}

/// The length of a range as a size, or `None` where the range is reversed or
/// longer than a signed size can say.
pub fn range_len(r: &Range<isize>) -> (n: Option<usize>)
    ensures
        n is Some <==> valid_y_range(*r),
        n matches Some(len) ==> len == y_len(*r),
{
    if r.start > r.end {
        return None;
    }
    match r.end.checked_sub(r.start) {
        Some(d) => Some(d as usize),
        None => None,
    }
}

} // verus!
